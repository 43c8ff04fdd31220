//! Multipart form bodies: encoding a form into one `multipart/form-data`
//! request body, the decoder for that framing, and the proof that decoding an
//! encoded form gives back exactly the original parts.
//!
//! A part is a field name and its content bytes (a text value or an attached
//! file). The boundary is caller-chosen from a conservative alphabet, and a
//! form encodes only when no part's content could be mistaken for the
//! boundary delimiter.

use crate::error::Error;
use vstd::prelude::*;
use vstd::string::StrSliceExecFns;
use vstd::string::StringExecFns;

verus! {

/// One form part: a field name and the attached bytes.
pub struct Part {
    pub name: Vec<u8>,
    pub content: Vec<u8>,
}

/// A multipart form: the boundary to frame with and the parts in order.
pub struct Form {
    pub boundary: String,
    pub parts: Vec<Part>,
}

/// The bytes of an ASCII character sequence, one byte per character.
pub open spec fn spec_ascii_bytes(cs: Seq<char>) -> Seq<u8> {
    Seq::new(cs.len(), |i: int| cs[i] as u8)
}

/// Carriage return, line feed.
pub open spec fn spec_crlf() -> Seq<u8> {
    seq![13u8, 10u8]
}

/// Two dashes.
pub open spec fn spec_dashes() -> Seq<u8> {
    seq![45u8, 45u8]
}

/// A boundary line start: two dashes and the boundary.
pub open spec fn spec_dash_boundary(b: Seq<u8>) -> Seq<u8> {
    spec_dashes() + b
}

/// The delimiter that ends a part's content: line break, dashes, boundary.
pub open spec fn spec_delim(b: Seq<u8>) -> Seq<u8> {
    spec_crlf() + spec_dashes() + b
}

/// The bytes of `Content-Disposition: form-data; name="`.
pub open spec fn spec_disposition_prefix() -> Seq<u8> {
    seq![
        67u8, 111u8, 110u8, 116u8, 101u8, 110u8, 116u8, 45u8, 68u8, 105u8, 115u8, 112u8, 111u8,
        115u8, 105u8, 116u8, 105u8, 111u8, 110u8, 58u8, 32u8, 102u8, 111u8, 114u8, 109u8, 45u8,
        100u8, 97u8, 116u8, 97u8, 59u8, 32u8, 110u8, 97u8, 109u8, 101u8, 61u8, 34u8,
    ]
}

/// The header of one part: the disposition line naming the field, then the
/// blank line before the content.
pub open spec fn spec_part_header(name: Seq<u8>) -> Seq<u8> {
    spec_disposition_prefix() + name + seq![34u8] + spec_crlf() + spec_crlf()
}

/// Everything an encoded form holds after a boundary line start: either the
/// closing dashes and line break, or one part and, recursively, the rest.
pub open spec fn spec_enc_rest(ps: Seq<(Seq<u8>, Seq<u8>)>, b: Seq<u8>) -> Seq<u8>
    decreases ps.len(),
{
    if ps.len() == 0 {
        spec_dashes() + spec_crlf()
    } else {
        spec_crlf() + spec_part_header(ps[0].0) + ps[0].1 + spec_crlf() + spec_dash_boundary(b)
            + spec_enc_rest(ps.drop_first(), b)
    }
}

/// The encoded body of a form with parts `ps` and boundary `b`.
pub open spec fn spec_encode(ps: Seq<(Seq<u8>, Seq<u8>)>, b: Seq<u8>) -> Seq<u8> {
    spec_dash_boundary(b) + spec_enc_rest(ps, b)
}

/// Whether `pat` occurs in `s` at position `j`.
pub open spec fn spec_occurs_at(s: Seq<u8>, pat: Seq<u8>, j: int) -> bool {
    0 <= j && j + pat.len() <= s.len() && s.subrange(j, j + pat.len()) == pat
}

/// Bytes a boundary may consist of: ASCII letters, digits, dash, underscore.
pub open spec fn spec_boundary_byte_ok(c: u8) -> bool {
    (48 <= c <= 57) || (65 <= c <= 90) || (97 <= c <= 122) || c == 45 || c == 95
}

/// A usable boundary: short, nonempty, over the safe alphabet.
pub open spec fn spec_boundary_ok(b: Seq<u8>) -> bool {
    1 <= b.len() <= 70 && forall|i: int| 0 <= i < b.len() ==> spec_boundary_byte_ok(b[i])
}

/// A usable field name: free of quotes, line breaks and backslashes.
pub open spec fn spec_name_ok(n: Seq<u8>) -> bool {
    forall|i: int| 0 <= i < n.len() ==> n[i] != 34 && n[i] != 13 && n[i] != 10 && n[i] != 92
}

/// Content that cannot be mistaken for the end of a part: the delimiter `d`
/// occurs in `c` followed by `d` itself only at the very end.
pub open spec fn spec_content_ok(c: Seq<u8>, d: Seq<u8>) -> bool {
    forall|j: int| 0 <= j < c.len() ==> !spec_occurs_at(c + d, d, j)
}

/// One part is encodable against boundary `b`.
pub open spec fn spec_part_ok(p: (Seq<u8>, Seq<u8>), b: Seq<u8>) -> bool {
    spec_name_ok(p.0) && spec_content_ok(p.1, spec_delim(b))
}

/// All parts of a form are encodable against boundary `b`.
pub open spec fn spec_parts_ok(ps: Seq<(Seq<u8>, Seq<u8>)>, b: Seq<u8>) -> bool {
    forall|i: int| 0 <= i < ps.len() ==> #[trigger] spec_part_ok(ps[i], b)
}

/// The specification view of a sequence of parts: pairs of name and content.
pub open spec fn spec_parts_view(ps: Seq<Part>) -> Seq<(Seq<u8>, Seq<u8>)> {
    ps.map_values(|p: Part| (p.name@, p.content@))
}

/// The boundary of a form, as bytes.
pub open spec fn spec_form_boundary(f: &Form) -> Seq<u8> {
    spec_ascii_bytes(f.boundary@)
}

/// A form that encodes: ASCII boundary over the safe alphabet, and every part
/// encodable against it.
pub open spec fn spec_form_ok(f: &Form) -> bool {
    vstd::utf8::is_ascii_chars(f.boundary@) && spec_boundary_ok(spec_form_boundary(f))
        && spec_parts_ok(spec_parts_view(f.parts@), spec_form_boundary(f))
}

/// First position at or after `i` where `pat` occurs in `s`.
pub open spec fn spec_find(s: Seq<u8>, pat: Seq<u8>, i: int) -> Option<int>
    decreases s.len() - i,
{
    if !(0 <= i && 1 <= pat.len() && i + pat.len() <= s.len()) {
        None
    } else if s.subrange(i, i + pat.len()) == pat {
        Some(i)
    } else {
        spec_find(s, pat, i + 1)
    }
}

/// Parses what follows a boundary line start at `i`: the closing dashes, or a
/// line break and one more part.
pub open spec fn spec_parse_after_boundary(
    s: Seq<u8>,
    b: Seq<u8>,
    i: int,
    acc: Seq<(Seq<u8>, Seq<u8>)>,
    fuel: nat,
) -> Option<Seq<(Seq<u8>, Seq<u8>)>>
    decreases fuel, 1int,
{
    if !(0 <= i && i + 2 <= s.len()) {
        None
    } else if s.subrange(i, i + 2) == spec_dashes() {
        if i + 4 == s.len() && s.subrange(i + 2, i + 4) == spec_crlf() {
            Some(acc)
        } else {
            None
        }
    } else if s.subrange(i, i + 2) == spec_crlf() {
        spec_parse_one_part(s, b, i + 2, acc, fuel)
    } else {
        None
    }
}

/// Parses one part whose header starts at `i`, then continues after its
/// delimiter.
pub open spec fn spec_parse_one_part(
    s: Seq<u8>,
    b: Seq<u8>,
    i: int,
    acc: Seq<(Seq<u8>, Seq<u8>)>,
    fuel: nat,
) -> Option<Seq<(Seq<u8>, Seq<u8>)>>
    decreases fuel, 0int,
{
    if fuel == 0 {
        None
    } else {
        let hp = spec_disposition_prefix();
        if 0 <= i && i + hp.len() <= s.len() && s.subrange(i, i + hp.len()) == hp {
            match spec_find(s, seq![34u8], i + hp.len()) {
                None => None,
                Some(q) => {
                    let name = s.subrange(i + hp.len(), q);
                    if q + 5 <= s.len() && s.subrange(q + 1, q + 5) == spec_crlf() + spec_crlf() {
                        let cstart = q + 5;
                        match spec_find(s, spec_delim(b), cstart) {
                            None => None,
                            Some(e) => {
                                let content = s.subrange(cstart, e);
                                spec_parse_after_boundary(
                                    s,
                                    b,
                                    e + spec_delim(b).len(),
                                    acc.push((name, content)),
                                    (fuel - 1) as nat,
                                )
                            },
                        }
                    } else {
                        None
                    }
                },
            }
        } else {
            None
        }
    }
}

/// The forms this decoder recognizes in a body framed with boundary `b`:
/// `Some` of the parts exactly when the whole body is one well-framed
/// multipart message.
pub open spec fn spec_decode(s: Seq<u8>, b: Seq<u8>) -> Option<Seq<(Seq<u8>, Seq<u8>)>> {
    let db = spec_dash_boundary(b);
    if db.len() <= s.len() && s.subrange(0, db.len() as int) == db {
        spec_parse_after_boundary(s, b, db.len() as int, Seq::empty(), s.len() as nat)
    } else {
        None
    }
}

proof fn lemma_split(s: Seq<u8>, i: int, a: Seq<u8>, bb: Seq<u8>)
    requires
        0 <= i,
        i + a.len() + bb.len() <= s.len(),
        s.subrange(i, i + a.len() + bb.len()) == a + bb,
    ensures
        s.subrange(i, i + a.len()) == a,
        s.subrange(i + a.len(), i + a.len() + bb.len()) == bb,
{
    let whole = s.subrange(i, i + a.len() + bb.len());
    assert(s.subrange(i, i + a.len()) =~= a) by {
        assert forall|k: int| 0 <= k < a.len() implies s.subrange(i, i + a.len())[k] == a[k] by {
            assert(whole[k] == (a + bb)[k]);
        }
    }
    assert(s.subrange(i + a.len(), i + a.len() + bb.len()) =~= bb) by {
        assert forall|k: int|
            0 <= k < bb.len() implies s.subrange(i + a.len(), i + a.len() + bb.len())[k]
            == bb[k] by {
            assert(whole[a.len() + k] == (a + bb)[a.len() + k]);
        }
    }
}

proof fn lemma_merge(s: Seq<u8>, i: int, a: Seq<u8>, bb: Seq<u8>)
    requires
        0 <= i,
        i + a.len() + bb.len() <= s.len(),
        s.subrange(i, i + a.len()) == a,
        s.subrange(i + a.len(), i + a.len() + bb.len()) == bb,
    ensures
        s.subrange(i, i + a.len() + bb.len()) == a + bb,
{
    assert(s.subrange(i, i + a.len() + bb.len()) =~= a + bb) by {
        assert forall|k: int|
            0 <= k < a.len() + bb.len() implies s.subrange(i, i + a.len() + bb.len())[k] == (a
            + bb)[k] by {
            if k < a.len() {
                assert(s.subrange(i, i + a.len())[k] == a[k]);
            } else {
                assert(s.subrange(i + a.len(), i + a.len() + bb.len())[k - a.len()] == bb[k
                    - a.len()]);
            }
        }
    }
}

proof fn lemma_window(s: Seq<u8>, base: int, t: Seq<u8>, off: int, w: int)
    requires
        0 <= base,
        base + t.len() <= s.len(),
        s.subrange(base, base + t.len()) == t,
        0 <= off,
        0 <= w,
        off + w <= t.len(),
    ensures
        s.subrange(base + off, base + off + w) == t.subrange(off, off + w),
{
    let w1 = s.subrange(base + off, base + off + w);
    let w2 = t.subrange(off, off + w);
    assert(w1 =~= w2) by {
        assert forall|k: int| 0 <= k < w implies w1[k] == w2[k] by {
            assert(s.subrange(base, base + t.len())[off + k] == t[off + k]);
        }
    }
}

proof fn lemma_find_at(s: Seq<u8>, pat: Seq<u8>, i: int, m: int)
    requires
        1 <= pat.len(),
        0 <= i <= m,
        spec_occurs_at(s, pat, m),
        forall|j: int| i <= j < m ==> !spec_occurs_at(s, pat, j),
    ensures
        spec_find(s, pat, i) == Some(m),
    decreases m - i,
{
    if i == m {
    } else {
        assert(!spec_occurs_at(s, pat, i));
        assert(i + pat.len() <= s.len());
        lemma_find_at(s, pat, i + 1, m);
    }
}

proof fn lemma_enc_rest_len(ps: Seq<(Seq<u8>, Seq<u8>)>, b: Seq<u8>)
    ensures
        spec_enc_rest(ps, b).len() >= ps.len() + 4,
    decreases ps.len(),
{
    if ps.len() > 0 {
        lemma_enc_rest_len(ps.drop_first(), b);
    }
}

#[verifier::rlimit(100)]
proof fn lemma_parse_encoded(
    s: Seq<u8>,
    b: Seq<u8>,
    i: int,
    acc: Seq<(Seq<u8>, Seq<u8>)>,
    ps: Seq<(Seq<u8>, Seq<u8>)>,
    fuel: nat,
)
    requires
        spec_boundary_ok(b),
        spec_parts_ok(ps, b),
        0 <= i <= s.len(),
        s.subrange(i, s.len() as int) == spec_enc_rest(ps, b),
        fuel >= ps.len() + 1,
    ensures
        spec_parse_after_boundary(s, b, i, acc, fuel) == Some(acc + ps),
    decreases ps.len(),
{
    if ps.len() == 0 {
        assert(spec_enc_rest(ps, b) == spec_dashes() + spec_crlf());
        assert((spec_dashes() + spec_crlf()).len() == 4);
        assert(s.len() - i == 4);
        assert(s.subrange(i, i + 4) == spec_dashes() + spec_crlf());
        lemma_split(s, i, spec_dashes(), spec_crlf());
        assert(acc + ps =~= acc);
    } else {
        let p0 = ps[0];
        let tail = ps.drop_first();
        let name = p0.0;
        let c = p0.1;
        let hdr = spec_part_header(name);
        let d = spec_delim(b);
        let rest = spec_enc_rest(tail, b);
        let e = spec_enc_rest(ps, b);
        assert(spec_part_ok(ps[0], b));
        assert(spec_name_ok(name) && spec_content_ok(c, d));
        assert(e =~= spec_crlf() + (hdr + (c + (d + rest))));
        lemma_split(s, i, spec_crlf(), hdr + (c + (d + rest)));
        let i2 = i + 2;
        lemma_split(s, i2, hdr, c + (d + rest));
        // the header region, taken apart
        assert(hdr =~= spec_disposition_prefix() + (name + (seq![34u8] + (spec_crlf()
            + spec_crlf()))));
        lemma_split(s, i2, spec_disposition_prefix(), name + (seq![34u8] + (spec_crlf()
            + spec_crlf())));
        let i3 = i2 + 38;
        lemma_split(s, i3, name, seq![34u8] + (spec_crlf() + spec_crlf()));
        let q = i3 + name.len();
        lemma_split(s, q, seq![34u8], spec_crlf() + spec_crlf());
        // the content region and the delimiter behind it
        let cstart = q + 5;
        assert(cstart == i2 + hdr.len());
        assert(s.subrange(cstart, s.len() as int) == c + (d + rest));
        lemma_split(s, cstart, c, d + rest);
        let e0 = cstart + c.len();
        lemma_split(s, e0, d, rest);
        // the first branch does not fire: the region starts with a line break
        assert(s.subrange(i, i + 2) != spec_dashes()) by {
            assert(s.subrange(i, i + 2)[0] == 13);
            assert(spec_dashes()[0] == 45);
        }
        assert(spec_parse_after_boundary(s, b, i, acc, fuel) == spec_parse_one_part(
            s,
            b,
            i2,
            acc,
            fuel,
        ));
        // the quote after the field name is the first quote
        assert(spec_find(s, seq![34u8], i3) == Some(q)) by {
            assert(spec_occurs_at(s, seq![34u8], q)) by {
                assert(s.subrange(q, q + 1) =~= seq![34u8]);
            }
            assert forall|j: int| i3 <= j < q implies !spec_occurs_at(s, seq![34u8], j) by {
                assert(s.subrange(i3, i3 + name.len())[j - i3] == name[j - i3]);
                assert(s[j] == name[j - i3]);
                assert(name[j - i3] != 34);
                if spec_occurs_at(s, seq![34u8], j) {
                    assert(s.subrange(j, j + 1)[0] == 34);
                }
            }
            lemma_find_at(s, seq![34u8], i3, q);
        }
        // the delimiter after the content is the first delimiter
        assert(spec_find(s, d, cstart) == Some(e0)) by {
            assert(spec_occurs_at(s, d, e0));
            lemma_merge(s, cstart, c, d);
            assert forall|j: int| cstart <= j < e0 implies !spec_occurs_at(s, d, j) by {
                let jp = j - cstart;
                assert(!spec_occurs_at(c + d, d, jp));
                if spec_occurs_at(s, d, j) {
                    lemma_window(s, cstart, c + d, jp, d.len() as int);
                    assert((c + d).subrange(jp, jp + d.len()) == s.subrange(j, j + d.len()));
                    assert(spec_occurs_at(c + d, d, jp));
                }
            }
            lemma_find_at(s, d, cstart, e0);
        }
        assert(s.subrange(i3, q) == name);
        assert(s.subrange(cstart, e0) == c);
        assert(spec_parse_one_part(s, b, i2, acc, fuel) == spec_parse_after_boundary(
            s,
            b,
            e0 + d.len(),
            acc.push((name, c)),
            (fuel - 1) as nat,
        ));
        assert(spec_parts_ok(tail, b)) by {
            assert forall|k: int| 0 <= k < tail.len() implies #[trigger] spec_part_ok(
                tail[k],
                b,
            ) by {
                assert(tail[k] == ps[k + 1]);
                assert(spec_part_ok(ps[k + 1], b));
            }
        }
        assert(s.subrange(e0 + d.len(), s.len() as int) == rest);
        lemma_parse_encoded(s, b, e0 + d.len(), acc.push((name, c)), tail, (fuel - 1) as nat);
        assert(acc.push((name, c)) + tail =~= acc + ps) by {
            assert((name, c) == p0);
        }
    }
}

fn push_bytes(out: &mut Vec<u8>, piece: &Vec<u8>)
    ensures
        final(out)@ == old(out)@ + piece@,
{
    let mut j: usize = 0;
    proof {
        assert(out@ =~= out@ + piece@.subrange(0, 0));
    }
    while j < piece.len()
        invariant
            j <= piece.len(),
            out@ == old(out)@ + piece@.subrange(0, j as int),
        decreases piece.len() - j,
    {
        out.push(piece[j]);
        proof {
            assert(piece@.subrange(0, j as int + 1) =~= piece@.subrange(0, j as int).push(
                piece@[j as int],
            ));
            assert(old(out)@ + piece@.subrange(0, j as int + 1) =~= (old(out)@ + piece@.subrange(
                0,
                j as int,
            )).push(piece@[j as int]));
        }
        j = j + 1;
    }
    proof {
        assert(piece@.subrange(0, piece@.len() as int) =~= piece@);
    }
}

fn copy_range(s: &Vec<u8>, from: usize, to: usize) -> (r: Vec<u8>)
    requires
        from <= to <= s.len(),
    ensures
        r@ == s@.subrange(from as int, to as int),
{
    let mut r: Vec<u8> = Vec::new();
    let mut j: usize = from;
    proof {
        assert(r@ =~= s@.subrange(from as int, from as int));
    }
    while j < to
        invariant
            from <= j <= to <= s.len(),
            r@ == s@.subrange(from as int, j as int),
        decreases to - j,
    {
        r.push(s[j]);
        proof {
            assert(s@.subrange(from as int, j as int + 1) =~= s@.subrange(from as int, j
                as int).push(s@[j as int]));
        }
        j = j + 1;
    }
    r
}

fn disposition_prefix_bytes() -> (r: Vec<u8>)
    ensures
        r@ == spec_disposition_prefix(),
{
    let r: Vec<u8> = vec![
        67u8, 111u8, 110u8, 116u8, 101u8, 110u8, 116u8, 45u8, 68u8, 105u8, 115u8, 112u8, 111u8,
        115u8, 105u8, 116u8, 105u8, 111u8, 110u8, 58u8, 32u8, 102u8, 111u8, 114u8, 109u8, 45u8,
        100u8, 97u8, 116u8, 97u8, 59u8, 32u8, 110u8, 97u8, 109u8, 101u8, 61u8, 34u8,
    ];
    proof {
        assert(r@ =~= spec_disposition_prefix());
    }
    r
}

/// Whether `pat` occurs in `s` at position `i`.
fn match_at(s: &Vec<u8>, pat: &Vec<u8>, i: usize) -> (r: bool)
    ensures
        r == spec_occurs_at(s@, pat@, i as int),
{
    if pat.len() > s.len() || i > s.len() - pat.len() {
        return false;
    }
    let mut j: usize = 0;
    while j < pat.len()
        invariant
            i + pat.len() <= s.len(),
            j <= pat.len(),
            forall|m: int| 0 <= m < j ==> s@[i + m] == pat@[m],
        decreases pat.len() - j,
    {
        if s[i + j] != pat[j] {
            proof {
                assert(s@.subrange(i as int, i as int + pat@.len())[j as int] != pat@[j as int]);
            }
            return false;
        }
        j = j + 1;
    }
    proof {
        assert(s@.subrange(i as int, i as int + pat@.len()) =~= pat@);
    }
    true
}

/// First occurrence of `pat` in `s` at or after `i`.
fn find_pat(s: &Vec<u8>, pat: &Vec<u8>, i: usize) -> (r: Option<usize>)
    requires
        i <= s.len(),
    ensures
        (match spec_find(s@, pat@, i as int) {
            None => r is None,
            Some(k) => r matches Some(u) && u == k && i <= k && k + pat@.len() <= s@.len(),
        }),
    decreases s.len() - i,
{
    if pat.len() == 0 || pat.len() > s.len() || i > s.len() - pat.len() {
        None
    } else if match_at(s, pat, i) {
        Some(i)
    } else {
        find_pat(s, pat, i + 1)
    }
}

fn boundary_bytes_ok(b: &Vec<u8>) -> (r: bool)
    ensures
        r == spec_boundary_ok(b@),
{
    if b.len() < 1 || b.len() > 70 {
        return false;
    }
    let mut j: usize = 0;
    while j < b.len()
        invariant
            j <= b.len(),
            forall|m: int| 0 <= m < j ==> spec_boundary_byte_ok(b@[m]),
        decreases b.len() - j,
    {
        let c = b[j];
        if !((48 <= c && c <= 57) || (65 <= c && c <= 90) || (97 <= c && c <= 122) || c == 45
            || c == 95) {
            return false;
        }
        j = j + 1;
    }
    true
}

fn name_bytes_ok(n: &Vec<u8>) -> (r: bool)
    ensures
        r == spec_name_ok(n@),
{
    let mut j: usize = 0;
    while j < n.len()
        invariant
            j <= n.len(),
            forall|m: int| 0 <= m < j ==> n@[m] != 34 && n@[m] != 13 && n@[m] != 10 && n@[m] != 92,
        decreases n.len() - j,
    {
        let c = n[j];
        if c == 34 || c == 13 || c == 10 || c == 92 {
            return false;
        }
        j = j + 1;
    }
    true
}

fn content_bytes_ok(c: &Vec<u8>, d: &Vec<u8>) -> (r: bool)
    ensures
        r == spec_content_ok(c@, d@),
{
    let mut cd: Vec<u8> = Vec::new();
    push_bytes(&mut cd, c);
    push_bytes(&mut cd, d);
    proof {
        assert(cd@ =~= c@ + d@);
    }
    let mut j: usize = 0;
    while j < c.len()
        invariant
            j <= c.len(),
            cd@ == c@ + d@,
            forall|m: int| 0 <= m < j ==> !spec_occurs_at(c@ + d@, d@, m),
        decreases c.len() - j,
    {
        if match_at(&cd, d, j) {
            return false;
        }
        j = j + 1;
    }
    true
}

/// Encodes a form into one `multipart/form-data` body framed with the form's
/// boundary. Construction fails exactly when the form is not encodable: a
/// boundary outside the safe alphabet, a field name holding a quote, line
/// break or backslash, or content in which the boundary delimiter occurs.
pub fn encode_form(form: &Form) -> (r: Result<Vec<u8>, Error>)
    ensures
        spec_form_ok(form) ==> (r matches Ok(body) && body@ == spec_encode(
            spec_parts_view(form.parts@),
            spec_form_boundary(form),
        )),
        !spec_form_ok(form) ==> (r matches Err(e) && (e matches Error::Construction { .. })),
{
    let bs = form.boundary.as_str();
    if !bs.is_ascii() {
        return Err(construction_error());
    }
    let b = bs.as_bytes_vec();
    proof {
        vstd::string::is_ascii_spec_bytes(bs);
        assert(b@ =~= spec_form_boundary(form));
    }
    if !boundary_bytes_ok(&b) {
        return Err(construction_error());
    }
    let mut delim: Vec<u8> = Vec::new();
    delim.push(13);
    delim.push(10);
    delim.push(45);
    delim.push(45);
    push_bytes(&mut delim, &b);
    proof {
        assert(delim@ =~= spec_delim(b@));
    }
    let ghost pv = spec_parts_view(form.parts@);
    let mut k: usize = 0;
    while k < form.parts.len()
        invariant
            k <= form.parts.len(),
            b@ == spec_form_boundary(form),
            delim@ == spec_delim(b@),
            pv == spec_parts_view(form.parts@),
            forall|m: int| 0 <= m < k ==> #[trigger] spec_part_ok(pv[m], b@),
        decreases form.parts.len() - k,
    {
        proof {
            assert(pv[k as int] == (form.parts@[k as int].name@, form.parts@[k as int].content@));
        }
        if !name_bytes_ok(&form.parts[k].name) {
            proof {
                assert(!spec_parts_ok(pv, b@)) by {
                    if spec_parts_ok(pv, b@) {
                        assert(spec_part_ok(pv[k as int], b@));
                    }
                }
            }
            return Err(construction_error());
        }
        if !content_bytes_ok(&form.parts[k].content, &delim) {
            proof {
                assert(!spec_parts_ok(pv, b@)) by {
                    if spec_parts_ok(pv, b@) {
                        assert(spec_part_ok(pv[k as int], b@));
                    }
                }
            }
            return Err(construction_error());
        }
        proof {
            assert(spec_part_ok(pv[k as int], b@));
        }
        k = k + 1;
    }
    assert(spec_parts_ok(pv, b@));
    let hp = disposition_prefix_bytes();
    let mut out: Vec<u8> = Vec::new();
    out.push(45);
    out.push(45);
    push_bytes(&mut out, &b);
    proof {
        assert(out@ =~= spec_dash_boundary(b@));
        assert(pv.skip(0) =~= pv);
        assert(out@ + spec_enc_rest(pv.skip(0), b@) =~= spec_encode(pv, b@));
    }
    let mut k2: usize = 0;
    while k2 < form.parts.len()
        invariant
            k2 <= form.parts.len(),
            b@ == spec_form_boundary(form),
            hp@ == spec_disposition_prefix(),
            pv == spec_parts_view(form.parts@),
            out@ + spec_enc_rest(pv.skip(k2 as int), b@) == spec_encode(pv, b@),
        decreases form.parts.len() - k2,
    {
        let mut block: Vec<u8> = Vec::new();
        block.push(13);
        block.push(10);
        push_bytes(&mut block, &hp);
        push_bytes(&mut block, &form.parts[k2].name);
        block.push(34);
        block.push(13);
        block.push(10);
        block.push(13);
        block.push(10);
        push_bytes(&mut block, &form.parts[k2].content);
        block.push(13);
        block.push(10);
        block.push(45);
        block.push(45);
        push_bytes(&mut block, &b);
        proof {
            assert(pv[k2 as int] == (form.parts@[k2 as int].name@, form.parts@[k2
                as int].content@));
            assert(block@ =~= spec_crlf() + spec_part_header(pv[k2 as int].0) + pv[k2 as int].1
                + spec_crlf() + spec_dash_boundary(b@));
        }
        push_bytes(&mut out, &block);
        proof {
            assert(pv.skip(k2 as int)[0] == pv[k2 as int]);
            assert(pv.skip(k2 as int).drop_first() =~= pv.skip(k2 as int + 1));
            assert(spec_enc_rest(pv.skip(k2 as int), b@) =~= block@ + spec_enc_rest(
                pv.skip(k2 as int + 1),
                b@,
            ));
            assert(out@ + spec_enc_rest(pv.skip(k2 as int + 1), b@) =~= spec_encode(pv, b@));
        }
        k2 = k2 + 1;
    }
    out.push(45);
    out.push(45);
    out.push(13);
    out.push(10);
    proof {
        assert(pv.skip(form.parts@.len() as int) =~= Seq::<(Seq<u8>, Seq<u8>)>::empty());
        assert(out@ =~= spec_encode(pv, b@));
    }
    Ok(out)
}

/// The construction error for a form that cannot be encoded.
fn construction_error() -> (r: Error)
    ensures
        r matches Error::Construction { .. },
{
    Error::Construction { message: "multipart form cannot be encoded".to_owned() }
}

fn parse_after_boundary(
    s: &Vec<u8>,
    b: &Vec<u8>,
    dl: &Vec<u8>,
    i: usize,
    acc: Vec<Part>,
    fuel: usize,
) -> (r: Option<Vec<Part>>)
    requires
        i <= s.len(),
        dl@ == spec_delim(b@),
    ensures
        (match spec_parse_after_boundary(s@, b@, i as int, spec_parts_view(acc@), fuel as nat) {
            None => r is None,
            Some(ps) => r matches Some(v) && spec_parts_view(v@) == ps,
        }),
    decreases fuel, 1int,
{
    if !(s.len() >= 2 && i <= s.len() - 2) {
        return None;
    }
    if s[i] == 45 && s[i + 1] == 45 {
        proof {
            assert(s@.subrange(i as int, i as int + 2) =~= spec_dashes());
        }
        if s.len() >= 4 && i == s.len() - 4 && s[i + 2] == 13 && s[i + 3] == 10 {
            proof {
                assert(s@.subrange(i as int + 2, i as int + 4) =~= spec_crlf());
            }
            Some(acc)
        } else {
            proof {
                if i as int + 4 == s@.len() && s@.subrange(i as int + 2, i as int + 4)
                    == spec_crlf() {
                    assert(s@.subrange(i as int + 2, i as int + 4)[0] == s@[i as int + 2]);
                    assert(s@.subrange(i as int + 2, i as int + 4)[1] == s@[i as int + 3]);
                }
            }
            None
        }
    } else if s[i] == 13 && s[i + 1] == 10 {
        proof {
            assert(s@.subrange(i as int, i as int + 2) =~= spec_crlf());
            assert(s@.subrange(i as int, i as int + 2) != spec_dashes()) by {
                assert(s@.subrange(i as int, i as int + 2)[0] == 13);
            }
        }
        parse_one_part(s, b, dl, i + 2, acc, fuel)
    } else {
        proof {
            assert(s@.subrange(i as int, i as int + 2)[0] == s@[i as int]);
            assert(s@.subrange(i as int, i as int + 2)[1] == s@[i as int + 1]);
        }
        None
    }
}

fn parse_one_part(
    s: &Vec<u8>,
    b: &Vec<u8>,
    dl: &Vec<u8>,
    i: usize,
    acc: Vec<Part>,
    fuel: usize,
) -> (r: Option<Vec<Part>>)
    requires
        i <= s.len(),
        dl@ == spec_delim(b@),
    ensures
        (match spec_parse_one_part(s@, b@, i as int, spec_parts_view(acc@), fuel as nat) {
            None => r is None,
            Some(ps) => r matches Some(v) && spec_parts_view(v@) == ps,
        }),
    decreases fuel, 0int,
{
    if fuel == 0 {
        return None;
    }
    let hp = disposition_prefix_bytes();
    if !match_at(s, &hp, i) {
        return None;
    }
    let i3 = i + hp.len();
    let quote: Vec<u8> = vec![34u8];
    proof {
        assert(quote@ =~= seq![34u8]);
    }
    match find_pat(s, &quote, i3) {
        None => None,
        Some(q) => {
            if s.len() >= 5 && q <= s.len() - 5 && s[q + 1] == 13 && s[q + 2] == 10 && s[q + 3]
                == 13 && s[q + 4] == 10 {
                proof {
                    assert(s@.subrange(q as int + 1, q as int + 5) =~= spec_crlf() + spec_crlf());
                }
                let cstart = q + 5;
                match find_pat(s, dl, cstart) {
                    None => None,
                    Some(e0) => {
                        let name = copy_range(s, i3, q);
                        let content = copy_range(s, cstart, e0);
                        let ghost accv = spec_parts_view(acc@);
                        let mut acc2 = acc;
                        acc2.push(Part { name, content });
                        proof {
                            assert(spec_parts_view(acc2@) =~= accv.push((
                                s@.subrange(i3 as int, q as int),
                                s@.subrange(cstart as int, e0 as int),
                            )));
                        }
                        parse_after_boundary(s, b, dl, e0 + dl.len(), acc2, fuel - 1)
                    },
                }
            } else {
                proof {
                    if q as int + 5 <= s@.len() && s@.subrange(q as int + 1, q as int + 5)
                        == spec_crlf() + spec_crlf() {
                        assert(s@.subrange(q as int + 1, q as int + 5)[0] == s@[q as int + 1]);
                        assert(s@.subrange(q as int + 1, q as int + 5)[1] == s@[q as int + 2]);
                        assert(s@.subrange(q as int + 1, q as int + 5)[2] == s@[q as int + 3]);
                        assert(s@.subrange(q as int + 1, q as int + 5)[3] == s@[q as int + 4]);
                    }
                }
                None
            }
        },
    }
}

/// Decodes a `multipart/form-data` body framed with `boundary` back into its
/// parts: `Some` exactly on the bodies that `spec_decode` accepts.
pub fn decode_form(body: &Vec<u8>, boundary: &Vec<u8>) -> (r: Option<Vec<Part>>)
    ensures
        (match spec_decode(body@, boundary@) {
            None => r is None,
            Some(ps) => r matches Some(v) && spec_parts_view(v@) == ps,
        }),
{
    let mut db: Vec<u8> = Vec::new();
    db.push(45);
    db.push(45);
    push_bytes(&mut db, boundary);
    proof {
        assert(db@ =~= spec_dash_boundary(boundary@));
    }
    let mut dl: Vec<u8> = Vec::new();
    dl.push(13);
    dl.push(10);
    push_bytes(&mut dl, &db);
    proof {
        assert(dl@ =~= spec_delim(boundary@));
    }
    if match_at(body, &db, 0) {
        let acc: Vec<Part> = Vec::new();
        proof {
            assert(spec_parts_view(acc@) =~= Seq::<(Seq<u8>, Seq<u8>)>::empty());
        }
        parse_after_boundary(body, boundary, &dl, db.len(), acc, body.len())
    } else {
        None
    }
}

/// Round trip: decoding an encoded form gives back exactly the parts that
/// were encoded, for every boundary over the safe alphabet and every part
/// whose content cannot be mistaken for the delimiter.
pub proof fn lemma_multipart_round_trip(ps: Seq<(Seq<u8>, Seq<u8>)>, b: Seq<u8>)
    requires
        spec_boundary_ok(b),
        spec_parts_ok(ps, b),
    ensures
        spec_decode(spec_encode(ps, b), b) == Some(ps),
{
    let s = spec_encode(ps, b);
    let db = spec_dash_boundary(b);
    let rest = spec_enc_rest(ps, b);
    lemma_enc_rest_len(ps, b);
    assert(s.subrange(0, s.len() as int) =~= s);
    lemma_split(s, 0, db, rest);
    assert(s.subrange(db.len() as int, s.len() as int) == rest);
    lemma_parse_encoded(s, b, db.len() as int, Seq::empty(), ps, s.len() as nat);
    assert(Seq::<(Seq<u8>, Seq<u8>)>::empty() + ps =~= ps);
}

/// The round trip stated over a form value: an encodable form's body decodes
/// back to exactly the form's parts.
pub proof fn lemma_form_round_trip(f: &Form)
    requires
        spec_form_ok(f),
    ensures
        spec_decode(
            spec_encode(spec_parts_view(f.parts@), spec_form_boundary(f)),
            spec_form_boundary(f),
        ) == Some(spec_parts_view(f.parts@)),
{
    lemma_multipart_round_trip(spec_parts_view(f.parts@), spec_form_boundary(f));
}

} // verus!
