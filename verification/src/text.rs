//! Character-level helpers shared by the name, path and header logic.

use vstd::prelude::*;

verus! {

/// `String::push`: appends one character.
#[verifier::external_body]
pub(crate) fn push_char(s: &mut String, c: char)
    ensures
        final(s)@ == old(s)@.push(c),
{
    s.push(c);
}

/// The characters of a string slice, in order.
pub fn chars_of(s: &str) -> (out: Vec<char>)
    ensures
        out@ == s@,
{
    broadcast use vstd::string::group_string_axioms;
    let mut out: Vec<char> = Vec::new();
    for c in it: s.chars()
        invariant
            out@ == it.seq().take(it.index() as int),
            it.seq() == s@,
    {
        out.push(c);
    }
    out
}

/// A `String` holding exactly the given characters.
pub fn string_from_chars(cs: &Vec<char>) -> (out: String)
    ensures
        out@ == cs@,
{
    let mut out = String::new();
    for i in 0..cs.len()
        invariant
            out@ == cs@.take(i as int),
    {
        push_char(&mut out, cs[i]);
        assert(cs@.take(i + 1) =~= cs@.take(i as int).push(cs@[i as int]));
    }
    assert(cs@.take(cs.len() as int) =~= cs@);
    out
}


/// The pieces of a byte string between occurrences of `sep` (always at
/// least one piece).
pub open spec fn split_on(p: Seq<u8>, sep: u8) -> Seq<Seq<u8>>
    decreases p.len(),
{
    if p.len() == 0 {
        seq![Seq::empty()]
    } else {
        let prev = split_on(p.drop_last(), sep);
        if p.last() == sep {
            prev.push(Seq::empty())
        } else {
            prev.update(prev.len() - 1, prev.last().push(p.last()))
        }
    }
}

pub proof fn lemma_split_nonempty(p: Seq<u8>, sep: u8)
    ensures
        split_on(p, sep).len() >= 1,
    decreases p.len(),
{
    if p.len() > 0 {
        lemma_split_nonempty(p.drop_last(), sep);
    }
}

pub open spec fn bytes_view(v: Seq<Vec<u8>>) -> Seq<Seq<u8>> {
    v.map_values(|b: Vec<u8>| b@)
}

/// Split a byte string at every `sep`.
pub fn split_bytes(p: &[u8], sep: u8) -> (pieces: Vec<Vec<u8>>)
    ensures
        bytes_view(pieces@) == split_on(p@, sep),
{
    let mut done: Vec<Vec<u8>> = Vec::new();
    let mut cur: Vec<u8> = Vec::new();
    for i in 0..p.len()
        invariant
            bytes_view(done@).push(cur@) == split_on(p@.take(i as int), sep),
    {
        assert(p@.take(i + 1).drop_last() =~= p@.take(i as int));
        let b = p[i];
        proof {
            lemma_split_nonempty(p@.take(i as int), sep);
        }
        if b == sep {
            let piece = cur;
            cur = Vec::new();
            let ghost old_done = bytes_view(done@);
            done.push(piece);
            assert(bytes_view(done@) =~= old_done.push(piece@));
        } else {
            let ghost old_cur = cur@;
            cur.push(b);
            assert(bytes_view(done@).push(cur@) =~= bytes_view(done@).push(old_cur).update(
                bytes_view(done@).len() as int,
                old_cur.push(b),
            ));
        }
    }
    assert(p@.take(p@.len() as int) =~= p@);
    let ghost old_done = bytes_view(done@);
    done.push(cur);
    assert(bytes_view(done@) =~= old_done.push(cur@));
    done
}

pub open spec fn lf() -> u8 {
    0x0A
}

pub open spec fn cr() -> u8 {
    0x0D
}

/// A line without the `\r` of a `\r\n` ending.
pub open spec fn strip_cr(line: Seq<u8>) -> Seq<u8> {
    if line.len() > 0 && line.last() == cr() {
        line.drop_last()
    } else {
        line
    }
}

/// The lines of a text, as `str::lines` yields them: split at `\n`, a
/// `\r` right before a `\n` dropped, and no empty line after a final `\n`.
pub open spec fn spec_lines(b: Seq<u8>) -> Seq<Seq<u8>> {
    let pieces = split_on(b, lf());
    let ended = pieces.drop_last().map_values(|l: Seq<u8>| strip_cr(l));
    if pieces.last().len() == 0 {
        ended
    } else {
        ended.push(pieces.last())
    }
}

pub fn copy_bytes(b: &[u8]) -> (out: Vec<u8>)
    ensures
        out@ == b@,
{
    let mut out: Vec<u8> = Vec::new();
    for i in 0..b.len()
        invariant
            out@ == b@.take(i as int),
    {
        out.push(b[i]);
        assert(b@.take(i + 1) =~= b@.take(i as int).push(b@[i as int]));
    }
    assert(b@.take(b@.len() as int) =~= b@);
    out
}

/// The lines of a text.
pub fn lines(b: &[u8]) -> (out: Vec<Vec<u8>>)
    ensures
        bytes_view(out@) == spec_lines(b@),
{
    let pieces = split_bytes(b, 0x0A);
    proof {
        lemma_split_nonempty(b@, lf());
    }
    let ghost pv = bytes_view(pieces@);
    let n = pieces.len();
    let mut out: Vec<Vec<u8>> = Vec::new();
    for i in 0..n - 1
        invariant
            n == pieces@.len(),
            n >= 1,
            pv == bytes_view(pieces@),
            out@.len() == i,
            forall|j: int| 0 <= j < i ==> #[trigger] out@[j]@ == strip_cr(pv[j]),
    {
        let l = &pieces[i];
        assert(pv[i as int] == l@);
        if l.len() > 0 && l[l.len() - 1] == 0x0D {
            let mut s: Vec<u8> = Vec::new();
            for k in 0..l.len() - 1
                invariant
                    l@.len() >= 1,
                    s@ == l@.take(k as int),
            {
                s.push(l[k]);
                assert(l@.take(k + 1) =~= l@.take(k as int).push(l@[k as int]));
            }
            assert(s@ =~= l@.drop_last());
            out.push(s);
        } else {
            out.push(copy_bytes(l.as_slice()));
        }
    }
    let last = &pieces[n - 1];
    assert(pv.last() == last@);
    let ghost ended = pv.drop_last().map_values(|l: Seq<u8>| strip_cr(l));
    assert(bytes_view(out@) =~= ended);
    if last.len() > 0 {
        out.push(copy_bytes(last.as_slice()));
        assert(bytes_view(out@) =~= ended.push(pv.last()));
    }
    out
}

/// `String::from_utf8_lossy`, as bytes: the text with each invalid UTF-8
/// sequence replaced by U+FFFD.
pub uninterp spec fn spec_utf8_lossy(b: Seq<u8>) -> Seq<u8>;

/// `String::from_utf8_lossy`, as the bytes of the resulting text.  Valid
/// UTF-8 comes back unchanged, and the result is always valid UTF-8.
#[verifier::external_body]
pub(crate) fn utf8_lossy(b: &[u8]) -> (res: Vec<u8>)
    ensures
        res@ == spec_utf8_lossy(b@),
        vstd::utf8::valid_utf8(b@) ==> res@ == b@,
        vstd::utf8::valid_utf8(res@),
{
    String::from_utf8_lossy(b).into_owned().into_bytes()
}


pub open spec fn digit_char(d: int) -> char {
    (0x30 + d) as char
}

/// The decimal digits of a number, most significant first, no leading zeros.
pub open spec fn spec_decimal(n: nat) -> Seq<char>
    decreases n,
{
    if n < 10 {
        seq![digit_char(n as int)]
    } else {
        spec_decimal(n / 10) + seq![digit_char((n % 10) as int)]
    }
}

/// The decimal digits of a `u16`.
pub fn decimal(n: u16) -> (out: Vec<char>)
    ensures
        out@ == spec_decimal(n as nat),
    decreases n,
{
    if n < 10 {
        let mut v: Vec<char> = Vec::new();
        v.push(((n as u8) + 0x30) as char);
        assert(v@ =~= seq![digit_char(n as int)]);
        v
    } else {
        let mut v = decimal(n / 10);
        v.push((((n % 10) as u8) + 0x30) as char);
        v
    }
}

/// Append the characters of `s` to `out`.
pub fn append_str(out: &mut Vec<char>, s: &str)
    ensures
        final(out)@ == old(out)@ + s@,
{
    let cs = chars_of(s);
    let ghost start = out@;
    for i in 0..cs.len()
        invariant
            out@ == start + cs@.take(i as int),
    {
        out.push(cs[i]);
        assert(cs@.take(i + 1) =~= cs@.take(i as int).push(cs@[i as int]));
    }
    assert(cs@.take(cs@.len() as int) =~= cs@);
}

/// Whether two strings hold the same characters.
pub fn str_eq(a: &str, b: &str) -> (res: bool)
    ensures
        res == (a@ == b@),
{
    let x = chars_of(a);
    let y = chars_of(b);
    if x.len() != y.len() {
        return false;
    }
    for i in 0..x.len()
        invariant
            x@ == a@,
            y@ == b@,
            x@.len() == y@.len(),
            forall|j: int| 0 <= j < i ==> x@[j] == y@[j],
    {
        if x[i] != y[i] {
            assert(a@[i as int] != b@[i as int]);
            return false;
        }
    }
    assert(x@ =~= y@);
    true
}


/// Whether two byte strings are equal.
pub fn bytes_eq(a: &[u8], b: &[u8]) -> (res: bool)
    ensures
        res == (a@ == b@),
{
    if a.len() != b.len() {
        return false;
    }
    for i in 0..a.len()
        invariant
            a@.len() == b@.len(),
            forall|j: int| 0 <= j < i ==> a@[j] == b@[j],
    {
        if a[i] != b[i] {
            return false;
        }
    }
    assert(a@ =~= b@);
    true
}

}
