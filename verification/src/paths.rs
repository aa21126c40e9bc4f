//! Paths as byte strings, read the way `std::path::Path` reads them on Unix:
//! as a sequence of components (an optional root, an optional leading `.`,
//! then the non-empty segments other than `.`).

use vstd::prelude::*;
use crate::text::{bytes_eq, bytes_view, copy_bytes, lemma_split_nonempty, split_bytes, split_on};

verus! {

pub open spec fn slash() -> u8 {
    0x2F
}

pub open spec fn dot() -> u8 {
    0x2E
}

/// The pieces of a path between its separators (always at least one).
pub open spec fn segments(p: Seq<u8>) -> Seq<Seq<u8>> {
    split_on(p, slash())
}

pub proof fn lemma_segments_nonempty(p: Seq<u8>)
    ensures
        segments(p).len() >= 1,
{
    lemma_split_nonempty(p, slash());
}

/// The segments that name something: non-empty and not `.`.
pub open spec fn named(segs: Seq<Seq<u8>>) -> Seq<Seq<u8>>
    decreases segs.len(),
{
    if segs.len() == 0 {
        segs
    } else {
        let prev = named(segs.drop_last());
        let s = segs.last();
        if s.len() == 0 || s == seq![dot()] {
            prev
        } else {
            prev.push(s)
        }
    }
}

/// The root component.  No segment is a lone `/`, so it cannot be confused
/// with one.
pub open spec fn root_component() -> Seq<u8> {
    seq![slash()]
}

/// The leading current-directory component.
pub open spec fn cur_dir_component() -> Seq<u8> {
    seq![dot()]
}

/// The components of a path: the root for an absolute path, `.` for a
/// relative path whose first segment is `.`, then every named segment.
pub open spec fn components(p: Seq<u8>) -> Seq<Seq<u8>> {
    let segs = segments(p);
    if p.len() > 0 && p[0] == slash() {
        seq![root_component()] + named(segs.drop_first())
    } else if segs[0] == seq![dot()] {
        seq![cur_dir_component()] + named(segs.drop_first())
    } else {
        named(segs)
    }
}

/// `path` lies under `base`: the components of `base` begin those of `path`.
pub open spec fn spec_starts_with(path: Seq<u8>, base: Seq<u8>) -> bool {
    components(base).is_prefix_of(components(path))
}

/// The segments of a path.
pub fn path_segments(p: &[u8]) -> (segs: Vec<Vec<u8>>)
    ensures
        bytes_view(segs@) == segments(p@),
{
    split_bytes(p, 0x2F)
}

fn is_dot(s: &Vec<u8>) -> (res: bool)
    ensures
        res == (s@ == seq![dot()]),
{
    if s.len() == 1 && s[0] == 0x2E {
        assert(s@ =~= seq![dot()]);
        true
    } else {
        false
    }
}

/// The named segments among `segs[from..]`.
fn named_from(segs: &Vec<Vec<u8>>, from: usize) -> (out: Vec<Vec<u8>>)
    requires
        from <= segs@.len(),
    ensures
        bytes_view(out@) == named(bytes_view(segs@).skip(from as int)),
{
    let ghost sv = bytes_view(segs@).skip(from as int);
    let mut out: Vec<Vec<u8>> = Vec::new();
    let mut i = from;
    assert(sv.take(0) =~= Seq::<Seq<u8>>::empty());
    while i < segs.len()
        invariant
            from <= i <= segs@.len(),
            sv == bytes_view(segs@).skip(from as int),
            bytes_view(out@) == named(sv.take(i - from)),
        decreases segs@.len() - i,
    {
        assert(sv.take(i + 1 - from).drop_last() =~= sv.take(i - from));
        assert(sv.take(i + 1 - from).last() == segs@[i as int]@);
        let s = &segs[i];
        if s.len() == 0 || is_dot(s) {
        } else {
            let ghost old_out = bytes_view(out@);
            out.push(copy_bytes(s.as_slice()));
            assert(bytes_view(out@) =~= old_out.push(s@));
        }
        i = i + 1;
    }
    assert(sv.take(segs@.len() - from) =~= sv);
    out
}

/// The components of a path.
pub fn path_components(p: &[u8]) -> (comps: Vec<Vec<u8>>)
    ensures
        bytes_view(comps@) == components(p@),
{
    let segs = path_segments(p);
    proof {
        lemma_segments_nonempty(p@);
    }
    assert(bytes_view(segs@)[0] == segs@[0]@);
    if p.len() > 0 && p[0] == 0x2F {
        let rest = named_from(&segs, 1);
        let mut out: Vec<Vec<u8>> = Vec::new();
        out.push(vec![0x2Fu8]);
        assert(out@[0]@ =~= root_component());
        for i in 0..rest.len()
            invariant
                bytes_view(out@) == seq![root_component()] + bytes_view(rest@).take(i as int),
        {
            let ghost before = bytes_view(out@);
            out.push(copy_bytes(rest[i].as_slice()));
            assert(bytes_view(out@) =~= before.push(rest@[i as int]@));
            assert(bytes_view(rest@).take(i + 1) =~= bytes_view(rest@).take(i as int).push(
                rest@[i as int]@,
            ));
        }
        assert(bytes_view(rest@).take(rest@.len() as int) =~= bytes_view(rest@));
        assert(bytes_view(segs@).skip(1) =~= bytes_view(segs@).drop_first());
        out
    } else if is_dot(&segs[0]) {
        let rest = named_from(&segs, 1);
        let mut out: Vec<Vec<u8>> = Vec::new();
        out.push(vec![0x2Eu8]);
        assert(out@[0]@ =~= cur_dir_component());
        for i in 0..rest.len()
            invariant
                bytes_view(out@) == seq![cur_dir_component()] + bytes_view(rest@).take(i as int),
        {
            let ghost before = bytes_view(out@);
            out.push(copy_bytes(rest[i].as_slice()));
            assert(bytes_view(out@) =~= before.push(rest@[i as int]@));
            assert(bytes_view(rest@).take(i + 1) =~= bytes_view(rest@).take(i as int).push(
                rest@[i as int]@,
            ));
        }
        assert(bytes_view(rest@).take(rest@.len() as int) =~= bytes_view(rest@));
        assert(bytes_view(segs@).skip(1) =~= bytes_view(segs@).drop_first());
        out
    } else {
        let out = named_from(&segs, 0);
        assert(bytes_view(segs@).skip(0) =~= bytes_view(segs@));
        out
    }
}

/// Whether two component lists are equal, component by component.
pub fn components_eq(a: &Vec<Vec<u8>>, b: &Vec<Vec<u8>>) -> (res: bool)
    ensures
        res == (bytes_view(a@) == bytes_view(b@)),
{
    if a.len() != b.len() {
        assert(bytes_view(a@).len() != bytes_view(b@).len());
        return false;
    }
    for i in 0..a.len()
        invariant
            a@.len() == b@.len(),
            forall|j: int| 0 <= j < i ==> a@[j]@ == b@[j]@,
    {
        if !bytes_eq(a[i].as_slice(), b[i].as_slice()) {
            assert(bytes_view(a@)[i as int] != bytes_view(b@)[i as int]);
            return false;
        }
    }
    assert(bytes_view(a@) =~= bytes_view(b@));
    true
}

/// Whether `path` lies under `base`, comparing whole components.
pub fn path_starts_with(path: &[u8], base: &[u8]) -> (res: bool)
    ensures
        res == spec_starts_with(path@, base@),
{
    let pc = path_components(path);
    let bc = path_components(base);
    if bc.len() > pc.len() {
        assert(bytes_view(bc@).len() > bytes_view(pc@).len());
        return false;
    }
    for i in 0..bc.len()
        invariant
            bc@.len() <= pc@.len(),
            bytes_view(pc@) == components(path@),
            bytes_view(bc@) == components(base@),
            forall|j: int| 0 <= j < i ==> bc@[j]@ == pc@[j]@,
    {
        if !bytes_eq(bc[i].as_slice(), pc[i].as_slice()) {
            assert(bytes_view(bc@)[i as int] == bc@[i as int]@);
            assert(bytes_view(pc@)[i as int] == pc@[i as int]@);
            assert(bytes_view(bc@)[i as int] != bytes_view(pc@)[i as int]);
            assert(bytes_view(pc@).subrange(0, bytes_view(bc@).len() as int)[i as int]
                == bytes_view(pc@)[i as int]);
            return false;
        }
    }
    assert forall|j: int| 0 <= j < bytes_view(bc@).len() implies bytes_view(bc@)[j] == bytes_view(
        pc@,
    )[j] by {
        assert(bc@[j]@ == pc@[j]@);
    }
    true
}

/// `base` joined with `rel` as `PathBuf::join` does on Unix: an absolute
/// `rel` replaces `base`; otherwise `rel` is appended, with a separator
/// between them unless `base` is empty or already ends with one (so an
/// empty `rel` leaves a trailing separator).
pub open spec fn spec_join(base: Seq<u8>, rel: Seq<u8>) -> Seq<u8> {
    if rel.len() > 0 && rel[0] == slash() {
        rel
    } else if base.len() == 0 {
        rel
    } else if base.last() == slash() {
        base + rel
    } else {
        base + seq![slash()] + rel
    }
}

pub proof fn lemma_split_concat(a: Seq<u8>, b: Seq<u8>, sep: u8)
    ensures
        split_on(a + seq![sep] + b, sep) == split_on(a, sep) + split_on(b, sep),
    decreases b.len(),
{
    let x = a + seq![sep] + b;
    if b.len() == 0 {
        assert(x.drop_last() =~= a);
        assert(split_on(b, sep) =~= seq![Seq::<u8>::empty()]);
        assert(split_on(x, sep) =~= split_on(a, sep) + split_on(b, sep));
    } else {
        let b1 = b.drop_last();
        lemma_split_concat(a, b1, sep);
        lemma_split_nonempty(b1, sep);
        lemma_split_nonempty(a, sep);
        assert(x.drop_last() =~= a + seq![sep] + b1);
        assert(x.last() == b.last());
        let prev = split_on(a, sep) + split_on(b1, sep);
        assert(split_on(x.drop_last(), sep) == prev);
        if b.last() == sep {
            assert(split_on(x, sep) =~= split_on(a, sep) + split_on(b, sep));
        } else {
            assert(split_on(b, sep) == split_on(b1, sep).update(
                split_on(b1, sep).len() - 1,
                split_on(b1, sep).last().push(b.last()),
            ));
            assert(split_on(x, sep) =~= split_on(a, sep) + split_on(b, sep));
        }
    }
}

pub proof fn lemma_split_whole(a: Seq<u8>, sep: u8)
    requires
        forall|i: int| 0 <= i < a.len() ==> a[i] != sep,
    ensures
        split_on(a, sep) == seq![a],
    decreases a.len(),
{
    if a.len() > 0 {
        lemma_split_whole(a.drop_last(), sep);
        assert(a.drop_last().push(a.last()) =~= a);
    } else {
        assert(a =~= Seq::<u8>::empty());
    }
}

proof fn lemma_named_concat(x: Seq<Seq<u8>>, y: Seq<Seq<u8>>)
    ensures
        named(x + y) == named(x) + named(y),
    decreases y.len(),
{
    if y.len() == 0 {
        assert(x + y =~= x);
        assert(named(x) + named(y) =~= named(x));
    } else {
        lemma_named_concat(x, y.drop_last());
        assert((x + y).drop_last() =~= x + y.drop_last());
        assert((x + y).last() == y.last());
        if !(y.last().len() == 0 || y.last() == seq![dot()]) {
            assert(named(x + y) =~= named(x) + named(y));
        }
    }
}

/// Joining a relative path whose first segment names something appends
/// that path's named segments to the components.
pub proof fn lemma_components_join(h: Seq<u8>, rel: Seq<u8>)
    requires
        rel.len() > 0,
        rel[0] != slash(),
        segments(rel)[0] != seq![dot()],
    ensures
        components(spec_join(h, rel)) == components(h) + named(segments(rel)),
{
    let j = spec_join(h, rel);
    lemma_segments_nonempty(rel);
    assert(named(seq![Seq::<u8>::empty()]) =~= Seq::<Seq<u8>>::empty()) by {
        reveal_with_fuel(named, 2);
        assert(seq![Seq::<u8>::empty()].drop_last() =~= Seq::<Seq<u8>>::empty());
        assert(seq![Seq::<u8>::empty()].last().len() == 0);
    }
    lemma_split_whole(Seq::<u8>::empty(), slash());
    if h.len() == 0 {
        assert(j == rel);
        assert(segments(h) == seq![Seq::<u8>::empty()]);
        assert(components(h) =~= Seq::<Seq<u8>>::empty());
        assert(components(j) =~= components(h) + named(segments(rel)));
    } else {
        // `pre` is `h` without a trailing separator; `j` is `pre/rel`.
        let pre = if h.last() == slash() {
            h.drop_last()
        } else {
            h
        };
        if h.last() == slash() {
            assert(pre + seq![slash()] =~= h);
            assert(j =~= pre + seq![slash()] + rel);
            lemma_split_concat(pre, Seq::<u8>::empty(), slash());
            assert(segments(h) == segments(pre) + seq![Seq::<u8>::empty()]);
        } else {
            assert(j =~= pre + seq![slash()] + rel);
        }
        lemma_split_concat(pre, rel, slash());
        lemma_segments_nonempty(pre);
        let sp = segments(pre);
        let sr = segments(rel);
        assert(segments(j) == sp + sr);
        assert(j[0] == h[0]) by {
            if pre.len() > 0 {
                assert(j[0] == pre[0]);
                assert(h[0] == pre[0]);
            }
        }
        assert(segments(j)[0] == segments(h)[0]);
        // The named part of `h` is that of `pre`.
        assert(named(segments(h)) == named(sp)) by {
            if h.last() == slash() {
                lemma_named_concat(sp, seq![Seq::<u8>::empty()]);
                assert(sp + named(seq![Seq::<u8>::empty()]) =~= sp);
                assert(named(sp) + Seq::<Seq<u8>>::empty() =~= named(sp));
            }
        }
        assert(named(segments(h).drop_first()) == named(sp.drop_first())) by {
            if h.last() == slash() {
                assert(segments(h).drop_first() =~= sp.drop_first() + seq![Seq::<u8>::empty()]);
                lemma_named_concat(sp.drop_first(), seq![Seq::<u8>::empty()]);
                assert(named(sp.drop_first()) + Seq::<Seq<u8>>::empty() =~= named(sp.drop_first()));
            }
        }
        assert(segments(j).drop_first() =~= sp.drop_first() + sr);
        lemma_named_concat(sp, sr);
        lemma_named_concat(sp.drop_first(), sr);
        if h[0] == slash() {
            assert(components(j) =~= components(h) + named(sr));
        } else if segments(h)[0] == seq![dot()] {
            assert(components(j) =~= components(h) + named(sr));
        } else {
            assert(components(j) =~= components(h) + named(sr));
        }
    }
}

/// `PathBuf::join`.
pub fn path_join(base: &[u8], rel: &[u8]) -> (out: Vec<u8>)
    ensures
        out@ == spec_join(base@, rel@),
{
    if rel.len() > 0 && rel[0] == 0x2F {
        return copy_bytes(rel);
    }
    let mut out: Vec<u8> = Vec::new();
    for i in 0..base.len()
        invariant
            out@ == base@.take(i as int),
    {
        out.push(base[i]);
        assert(base@.take(i + 1) =~= base@.take(i as int).push(base@[i as int]));
    }
    assert(base@.take(base@.len() as int) =~= base@);
    if base.len() > 0 && base[base.len() - 1] != 0x2F {
        out.push(0x2F);
    }
    let ghost mid = out@;
    for i in 0..rel.len()
        invariant
            out@ == mid + rel@.take(i as int),
    {
        out.push(rel[i]);
        assert(rel@.take(i + 1) =~= rel@.take(i as int).push(rel@[i as int]));
    }
    assert(rel@.take(rel@.len() as int) =~= rel@);
    proof {
        if base@.len() == 0 {
            assert(out@ =~= rel@);
        } else if base@.last() == slash() {
            assert(out@ =~= base@ + rel@);
        } else {
            assert(out@ =~= base@ + seq![slash()] + rel@);
        }
    }
    out
}

/// The final component of a path, when it names something (not the root,
/// not `.`, not `..`).
pub open spec fn spec_file_name(p: Seq<u8>) -> Option<Seq<u8>> {
    let c = components(p);
    if c.len() == 0 || c.last() == root_component() || c.last() == cur_dir_component() || c.last()
        == seq![dot(), dot()] {
        None
    } else {
        Some(c.last())
    }
}

/// The extension of a file name: what follows its last `.`, when the dot is
/// not the name's first byte.
pub open spec fn spec_name_extension(name: Seq<u8>) -> Option<Seq<u8>> {
    if exists|k: int| 0 < k < name.len() && name[k] == dot() && forall|j: int|
        k < j < name.len() ==> name[j] != dot() {
        let k = choose|k: int|
            0 < k < name.len() && name[k] == dot() && forall|j: int|
                k < j < name.len() ==> name[j] != dot();
        Some(name.skip(k + 1))
    } else {
        None
    }
}

pub open spec fn spec_extension(p: Seq<u8>) -> Option<Seq<u8>> {
    match spec_file_name(p) {
        Some(name) => spec_name_extension(name),
        None => None,
    }
}


/// The final component of a path, when it names a file or directory.
pub fn file_name(p: &[u8]) -> (res: Option<Vec<u8>>)
    ensures
        match res {
            Some(n) => spec_file_name(p@) == Some(n@),
            None => spec_file_name(p@) is None,
        },
{
    let comps = path_components(p);
    if comps.len() == 0 {
        return None;
    }
    let last = &comps[comps.len() - 1];
    assert(bytes_view(comps@).last() == last@);
    let root = vec![0x2Fu8];
    let cur = vec![0x2Eu8];
    let parent = vec![0x2Eu8, 0x2Eu8];
    assert(root@ =~= root_component());
    assert(cur@ =~= cur_dir_component());
    assert(parent@ =~= seq![dot(), dot()]);
    if bytes_eq(last.as_slice(), root.as_slice()) || bytes_eq(last.as_slice(), cur.as_slice()) || bytes_eq(
        last.as_slice(),
        parent.as_slice(),
    ) {
        None
    } else {
        Some(copy_bytes(last.as_slice()))
    }
}

/// The extension of a path's file name.
pub fn extension(p: &[u8]) -> (res: Option<Vec<u8>>)
    ensures
        match res {
            Some(e) => spec_extension(p@) == Some(e@),
            None => spec_extension(p@) is None,
        },
{
    let name = match file_name(p) {
        Some(n) => n,
        None => {
            return None;
        },
    };
    let len = name.len();
    let mut k = len;
    while k > 0 && name[k - 1] != 0x2E
        invariant
            k <= len == name@.len(),
            forall|j: int| k <= j < len ==> name@[j] != dot(),
        decreases k,
    {
        k = k - 1;
    }
    // `k` is one past the last dot, or 0 when the name has none.
    if k <= 1 {
        proof {
            if exists|m: int| 0 < m < len && name@[m] == dot() && forall|j: int|
                m < j < len ==> name@[j] != dot() {
                let m = choose|m: int|
                    0 < m < len && name@[m] == dot() && forall|j: int|
                        m < j < len ==> name@[j] != dot();
                if k == 0 {
                    assert(name@[m] != dot());
                } else {
                    assert(name@[0] == dot());
                    assert(name@[m] != dot());
                }
            }
        }
        return None;
    }
    let dot_at = k - 1;
    let mut ext: Vec<u8> = Vec::new();
    for i in k..len
        invariant
            2 <= k <= len == name@.len(),
            ext@ == name@.subrange(k as int, i as int),
    {
        ext.push(name[i]);
        assert(name@.subrange(k as int, i + 1) =~= name@.subrange(k as int, i as int).push(
            name@[i as int],
        ));
    }
    proof {
        assert(0 < dot_at < len && name@[dot_at as int] == dot());
        assert(forall|j: int| dot_at < j < len ==> name@[j] != dot());
        let m = choose|m: int|
            0 < m < len && name@[m] == dot() && forall|j: int| m < j < len ==> name@[j] != dot();
        if m < dot_at {
            assert(name@[dot_at as int] != dot());
        } else if m > dot_at {
            assert(name@[m] != dot());
        }
        assert(name@.skip(m + 1) =~= ext@);
    }
    Some(ext)
}

}
