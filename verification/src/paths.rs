//! Unix path decomposition on the bytes of a path, with the meaning that
//! `std::path::Path::components`, `file_name`, `extension` and `file_stem`
//! give it.
use vstd::prelude::*;
use vstd::string::StringSliceAdditionalSpecFns;

verus! {

/// The pieces between `/` separators, empty pieces included (`str::split`).
pub open spec fn split_pieces(rest: Seq<u8>, current: Seq<u8>) -> Seq<Seq<u8>>
    decreases rest.len(),
{
    if rest.len() == 0 {
        seq![current]
    } else if rest[0] == 47u8 {
        seq![current] + split_pieces(rest.drop_first(), seq![])
    } else {
        split_pieces(rest.drop_first(), current.push(rest[0]))
    }
}

/// The pieces of a path between its `/` separators.
pub open spec fn raw_segments(path: Seq<u8>) -> Seq<Seq<u8>> {
    split_pieces(path, seq![])
}

/// A piece that names no component: empty, or the current directory `.`.
pub open spec fn is_skipped_segment(segment: Seq<u8>) -> bool {
    segment.len() == 0 || segment == seq![46u8]
}

/// The parent directory `..`.
pub open spec fn is_parent_segment(segment: Seq<u8>) -> bool {
    segment == seq![46u8, 46u8]
}

/// The pieces that name components, in order.
pub open spec fn kept_segments(segments: Seq<Seq<u8>>) -> Seq<Seq<u8>>
    decreases segments.len(),
{
    if segments.len() == 0 {
        seq![]
    } else if is_skipped_segment(segments.last()) {
        kept_segments(segments.drop_last())
    } else {
        kept_segments(segments.drop_last()).push(segments.last())
    }
}

/// The path begins at the root directory.
pub open spec fn is_rooted(path: Seq<u8>) -> bool {
    path.len() > 0 && path[0] == 47u8
}

/// A relative path that begins with the current directory `.`.
pub open spec fn has_leading_current_dir(path: Seq<u8>) -> bool {
    !is_rooted(path) && raw_segments(path)[0] == seq![46u8]
}

/// The name components of the path (normal names and `..`), after any root
/// or leading `.`.
pub open spec fn name_components(path: Seq<u8>) -> Seq<Seq<u8>> {
    kept_segments(raw_segments(path))
}

/// Splits bytes at `/`.
fn split_at_slashes(bytes: &[u8]) -> (pieces: Vec<Vec<u8>>)
    ensures
        pieces@.map_values(|piece: Vec<u8>| piece@) == raw_segments(bytes@),
        pieces@.len() >= 1,
{
    let mut out: Vec<Vec<u8>> = Vec::new();
    let mut current: Vec<u8> = Vec::new();
    let mut i: usize = 0;
    assert(bytes@.skip(0) =~= bytes@);
    while i < bytes.len()
        invariant
            0 <= i <= bytes@.len(),
            raw_segments(bytes@) == out@.map_values(|piece: Vec<u8>| piece@) + split_pieces(
                bytes@.skip(i as int),
                current@,
            ),
        decreases bytes.len() - i,
    {
        let b = bytes[i];
        let ghost rest = bytes@.skip(i as int);
        assert(rest[0] == b);
        assert(rest.drop_first() =~= bytes@.skip(i + 1));
        if b == 47u8 {
            let ghost before = out@.map_values(|piece: Vec<u8>| piece@);
            let finished = current;
            let ghost finished_view = finished@;
            out.push(finished);
            assert(out@.map_values(|piece: Vec<u8>| piece@) =~= before.push(finished_view));
            assert(before + (seq![finished_view] + split_pieces(bytes@.skip(i + 1), seq![]))
                =~= out@.map_values(|piece: Vec<u8>| piece@) + split_pieces(
                bytes@.skip(i + 1),
                seq![],
            ));
            current = Vec::new();
            assert(current@ =~= seq![]);
        } else {
            current.push(b);
        }
        i = i + 1;
    }
    assert(bytes@.skip(i as int).len() == 0);
    let ghost before = out@.map_values(|piece: Vec<u8>| piece@);
    let last = current;
    let ghost last_view = last@;
    out.push(last);
    assert(out@.map_values(|piece: Vec<u8>| piece@) =~= before + seq![last_view]);
    out
}

fn is_skipped(segment: &Vec<u8>) -> (b: bool)
    ensures
        b == is_skipped_segment(segment@),
{
    let b = segment.len() == 0 || (segment.len() == 1 && segment[0] == 46u8);
    proof {
        if segment@.len() == 1 && segment@[0] == 46u8 {
            assert(segment@ =~= seq![46u8]);
        }
    }
    b
}

fn is_parent(segment: &Vec<u8>) -> (b: bool)
    ensures
        b == is_parent_segment(segment@),
{
    let b = segment.len() == 2 && segment[0] == 46u8 && segment[1] == 46u8;
    proof {
        if b {
            assert(segment@ =~= seq![46u8, 46u8]);
        }
    }
    b
}

/// The decomposition of a path: whether it is rooted, whether it begins with
/// `.`, and its name components.
fn decompose(bytes: &[u8]) -> (parts: (bool, bool, Vec<Vec<u8>>))
    ensures
        parts.0 == is_rooted(bytes@),
        parts.1 == has_leading_current_dir(bytes@),
        parts.2@.map_values(|piece: Vec<u8>| piece@) == name_components(bytes@),
{
    let pieces = split_at_slashes(bytes);
    let ghost raw = raw_segments(bytes@);
    let rooted = bytes.len() > 0 && bytes[0] == 47u8;
    let first = &pieces[0];
    assert(first@ == raw[0]);
    let leading = !rooted && first.len() == 1 && first[0] == 46u8;
    proof {
        if !rooted && first@.len() == 1 && first@[0] == 46u8 {
            assert(raw[0] =~= seq![46u8]);
        }
    }
    let mut kept: Vec<Vec<u8>> = Vec::new();
    let mut i: usize = 0;
    while i < pieces.len()
        invariant
            pieces@.map_values(|piece: Vec<u8>| piece@) == raw,
            0 <= i <= pieces@.len(),
            kept@.map_values(|piece: Vec<u8>| piece@) == kept_segments(raw.take(i as int)),
        decreases pieces.len() - i,
    {
        assert(raw.take(i + 1).drop_last() =~= raw.take(i as int));
        assert(raw.take(i + 1).last() == pieces@[i as int]@);
        if !is_skipped(&pieces[i]) {
            let ghost before = kept@.map_values(|piece: Vec<u8>| piece@);
            let copy = copy_bytes(pieces[i].as_slice());
            kept.push(copy);
            assert(kept@.map_values(|piece: Vec<u8>| piece@) =~= before.push(pieces@[i as int]@));
        }
        i = i + 1;
    }
    assert(raw.take(pieces@.len() as int) =~= raw);
    (rooted, leading, kept)
}

fn bytes_equal(a: &[u8], b: &[u8]) -> (eq: bool)
    ensures
        eq == (a@ == b@),
{
    if a.len() != b.len() {
        return false;
    }
    let mut i: usize = 0;
    while i < a.len()
        invariant
            a@.len() == b@.len(),
            0 <= i <= a@.len(),
            forall|j: int| 0 <= j < i ==> a@[j] == b@[j],
        decreases a.len() - i,
    {
        if a[i] != b[i] {
            return false;
        }
        i = i + 1;
    }
    assert(a@ =~= b@);
    true
}

fn copy_bytes(bytes: &[u8]) -> (copy: Vec<u8>)
    ensures
        copy@ == bytes@,
{
    let mut out: Vec<u8> = Vec::new();
    let mut i: usize = 0;
    while i < bytes.len()
        invariant
            0 <= i <= bytes@.len(),
            out@ == bytes@.take(i as int),
        decreases bytes.len() - i,
    {
        assert(bytes@.take(i + 1) =~= out@.push(bytes@[i as int]));
        out.push(bytes[i]);
        i = i + 1;
    }
    assert(bytes@.take(bytes@.len() as int) =~= bytes@);
    out
}

/// The final component of the path when it is a normal name (`Path::file_name`).
pub open spec fn file_name_of(path: Seq<u8>) -> Option<Seq<u8>> {
    let names = name_components(path);
    if names.len() > 0 && !is_parent_segment(names.last()) {
        Some(names.last())
    } else {
        None
    }
}

/// The bytes of `objects`, the directory of content-addressed audio.
pub open spec fn objects_dir_name() -> Seq<u8> {
    seq![111u8, 98u8, 106u8, 101u8, 99u8, 116u8, 115u8]
}

/// The path names exactly `objects/<name>`: two normal components, the
/// first being `objects`.
pub open spec fn is_safe_object_path(path: Seq<u8>) -> bool {
    let names = name_components(path);
    &&& !is_rooted(path)
    &&& !has_leading_current_dir(path)
    &&& names.len() == 2
    &&& names[0] == objects_dir_name()
    &&& !is_parent_segment(names[1])
}

proof fn lemma_split_without_slash(rest: Seq<u8>, current: Seq<u8>)
    requires
        forall|i: int| 0 <= i < rest.len() ==> rest[i] != 47u8,
    ensures
        split_pieces(rest, current) == seq![current + rest],
    decreases rest.len(),
{
    if rest.len() == 0 {
        assert(current + rest =~= current);
    } else {
        lemma_split_without_slash(rest.drop_first(), current.push(rest[0]));
        assert(current.push(rest[0]) + rest.drop_first() =~= current + rest);
    }
}

proof fn lemma_split_at_first_slash(rest: Seq<u8>, current: Seq<u8>, k: int)
    requires
        0 <= k < rest.len(),
        rest[k] == 47u8,
        forall|i: int| 0 <= i < k ==> rest[i] != 47u8,
    ensures
        split_pieces(rest, current) == seq![current + rest.take(k)] + split_pieces(rest.skip(k + 1), seq![]),
    decreases k,
{
    if k == 0 {
        assert(current + rest.take(0) =~= current);
        assert(rest.skip(1) =~= rest.drop_first());
    } else {
        lemma_split_at_first_slash(rest.drop_first(), current.push(rest[0]), k - 1);
        assert(current.push(rest[0]) + rest.drop_first().take(k - 1) =~= current + rest.take(k));
        assert(rest.drop_first().skip(k) =~= rest.skip(k + 1));
    }
}

/// A path made of `objects`, one `/` and then a name of at least three
/// bytes without `/` is a safe object path.
pub proof fn lemma_object_path_is_safe(path: Seq<u8>)
    requires
        path.len() > 10,
        path.take(7) == objects_dir_name(),
        path[7] == 47u8,
        forall|i: int| 8 <= i < path.len() ==> path[i] != 47u8,
    ensures
        is_safe_object_path(path),
{
    let head = path.take(7);
    let tail = path.skip(8);
    assert forall|i: int| 0 <= i < 7 implies path[i] != 47u8 by {
        assert(path[i] == head[i]);
    }
    lemma_split_at_first_slash(path, seq![], 7);
    lemma_split_without_slash(tail, seq![]);
    assert(seq![] + head =~= head);
    assert(seq![] + tail =~= tail);
    let raw = raw_segments(path);
    assert(raw =~= seq![head, tail]);
    assert(head.len() == 7 && tail.len() > 2);
    assert(!is_skipped_segment(tail));
    assert(!is_skipped_segment(head));
    assert(raw.drop_last() =~= seq![head]);
    assert(seq![head].drop_last() =~= Seq::<Seq<u8>>::empty());
    assert(kept_segments(Seq::<Seq<u8>>::empty()) == Seq::<Seq<u8>>::empty());
    assert(kept_segments(seq![head]) =~= seq![head]);
    assert(kept_segments(raw) =~= seq![head, tail]);
    assert(path[0] == head[0]);
}

/// Whether a stored object reference stays inside the cache's object store:
/// exactly the relative path `objects/<name>`.
pub fn safe_object_reference(value: &str) -> (safe: bool)
    ensures
        safe == is_safe_object_path(value.spec_bytes()),
{
    let (rooted, leading, names) = decompose(value.as_bytes());
    let ghost view = names@.map_values(|piece: Vec<u8>| piece@);
    if rooted || leading || names.len() != 2 {
        return false;
    }
    let first = &names[0];
    assert(first@ == view[0]);
    let objects: [u8; 7] = [111u8, 98u8, 106u8, 101u8, 99u8, 116u8, 115u8];
    assert(objects@ =~= objects_dir_name());
    if !bytes_equal(first.as_slice(), &objects) {
        return false;
    }
    assert(names@[1]@ == view[1]);
    !is_parent(&names[1])
}

/// Position of the last `.` of a name.
pub open spec fn is_last_dot(name: Seq<u8>, d: int) -> bool {
    &&& 0 <= d < name.len()
    &&& name[d] == 46u8
    &&& forall|j: int| d < j < name.len() ==> #[trigger] name[j] != 46u8
}

/// The name has a `.` after its first byte that splits it into stem and
/// extension.
pub open spec fn has_extension_split(name: Seq<u8>) -> bool {
    !is_parent_segment(name) && exists|d: int| is_last_dot(name, d) && d > 0
}

/// The text after the last `.` of a file name (`Path::extension`).
pub open spec fn extension_of(name: Seq<u8>) -> Option<Seq<u8>> {
    if has_extension_split(name) {
        Some(name.skip((choose|d: int| is_last_dot(name, d)) + 1))
    } else {
        None
    }
}

/// The file name without its extension (`Path::file_stem`).
pub open spec fn stem_of(name: Seq<u8>) -> Seq<u8> {
    if has_extension_split(name) {
        name.take(choose|d: int| is_last_dot(name, d))
    } else {
        name
    }
}

/// Finds where a file name splits into stem and extension.
fn extension_split(name: &[u8]) -> (split: Option<usize>)
    ensures
        split is Some <==> has_extension_split(name@),
        split is Some ==> is_last_dot(name@, split->0 as int) && split->0 > 0,
        split is Some ==> (choose|d: int| is_last_dot(name@, d)) == split->0,
{
    if name.len() == 2 && name[0] == 46u8 && name[1] == 46u8 {
        assert(name@ =~= seq![46u8, 46u8]);
        return None;
    }
    let mut i: usize = name.len();
    while i > 0 && name[i - 1] != 46u8
        invariant
            0 <= i <= name@.len(),
            forall|j: int| i <= j < name@.len() ==> #[trigger] name@[j] != 46u8,
        decreases i,
    {
        i = i - 1;
    }
    if i == 0 {
        proof {
            assert forall|d: int| !is_last_dot(name@, d) by {
                if 0 <= d < name@.len() {
                    assert(name@[d] != 46u8);
                }
            }
        }
        return None;
    }
    let d = i - 1;
    assert(is_last_dot(name@, d as int));
    proof {
        let c = choose|c: int| is_last_dot(name@, c);
        if c < d {
            assert(name@[d as int] != 46u8);
        }
        if d < c {
            assert(name@[c] != 46u8);
        }
        assert(!is_parent_segment(name@)) by {
            if is_parent_segment(name@) {
                assert(name@.len() == 2 && name@[0] == 46u8 && name@[1] == 46u8);
            }
        }
    }
    if d == 0 {
        proof {
            assert forall|c: int| is_last_dot(name@, c) implies c == 0 by {
                if c > 0 {
                    assert(name@[c] != 46u8);
                }
            }
        }
        return None;
    }
    Some(d)
}

/// The final normal component of a path, or `None` (`Path::file_name`).
pub fn file_name(path: &[u8]) -> (name: Option<Vec<u8>>)
    ensures
        name is Some <==> file_name_of(path@) is Some,
        name is Some ==> name->0@ == file_name_of(path@)->0,
{
    let (_, _, names) = decompose(path);
    let ghost view = names@.map_values(|piece: Vec<u8>| piece@);
    if names.len() == 0 {
        return None;
    }
    let last = &names[names.len() - 1];
    assert(last@ == view.last());
    if is_parent(last) {
        return None;
    }
    Some(copy_bytes(last.as_slice()))
}

/// The extension of a path's file name (`Path::extension`).
pub open spec fn path_extension(path: Seq<u8>) -> Option<Seq<u8>> {
    match file_name_of(path) {
        Some(name) => extension_of(name),
        None => None,
    }
}

/// The stem of a path's file name (`Path::file_stem`).
pub open spec fn path_stem(path: Seq<u8>) -> Option<Seq<u8>> {
    match file_name_of(path) {
        Some(name) => Some(stem_of(name)),
        None => None,
    }
}

/// The extension of the path's file name.
pub fn extension(path: &[u8]) -> (ext: Option<Vec<u8>>)
    ensures
        ext is Some <==> path_extension(path@) is Some,
        ext is Some ==> ext->0@ == path_extension(path@)->0,
{
    let name = match file_name(path) {
        Some(name) => name,
        None => {
            return None;
        },
    };
    match extension_split(name.as_slice()) {
        Some(d) => {
            assert(d < name.len());
            let mut out: Vec<u8> = Vec::new();
            let mut i: usize = d + 1;
            while i < name.len()
                invariant
                    d + 1 <= i <= name@.len(),
                    out@ == name@.subrange(d + 1, i as int),
                decreases name.len() - i,
            {
                assert(name@.subrange(d + 1, i + 1) =~= out@.push(name@[i as int]));
                out.push(name[i]);
                i = i + 1;
            }
            assert(out@ =~= name@.skip(d + 1));
            Some(out)
        },
        None => None,
    }
}

/// The stem of the path's file name.
pub fn file_stem(path: &[u8]) -> (stem: Option<Vec<u8>>)
    ensures
        stem is Some <==> path_stem(path@) is Some,
        stem is Some ==> stem->0@ == path_stem(path@)->0,
{
    let name = match file_name(path) {
        Some(name) => name,
        None => {
            return None;
        },
    };
    match extension_split(name.as_slice()) {
        Some(d) => {
            let mut out: Vec<u8> = Vec::new();
            let mut i: usize = 0;
            while i < d
                invariant
                    d < name@.len(),
                    0 <= i <= d,
                    out@ == name@.take(i as int),
                decreases d - i,
            {
                assert(name@.take(i + 1) =~= out@.push(name@[i as int]));
                out.push(name[i]);
                i = i + 1;
            }
            Some(out)
        },
        None => Some(name),
    }
}

/// The components of a path as `Path::components` yields them, each as
/// bytes: the root directory as `/`, a leading current directory as `.`, a
/// parent directory as `..` and every other name as itself.
pub open spec fn path_components(path: Seq<u8>) -> Seq<Seq<u8>> {
    let head: Seq<Seq<u8>> = if is_rooted(path) {
        seq![seq![47u8]]
    } else if has_leading_current_dir(path) {
        seq![seq![46u8]]
    } else {
        seq![]
    };
    head + name_components(path)
}

/// `Path::starts_with`: the components of `base` begin the components of
/// `path`.
pub open spec fn path_begins_with(path: Seq<u8>, base: Seq<u8>) -> bool {
    let p = path_components(path);
    let b = path_components(base);
    b.len() <= p.len() && p.take(b.len() as int) == b
}

fn components(bytes: &[u8]) -> (comps: Vec<Vec<u8>>)
    ensures
        comps@.map_values(|c: Vec<u8>| c@) == path_components(bytes@),
{
    let (rooted, leading, names) = decompose(bytes);
    let mut out: Vec<Vec<u8>> = Vec::new();
    if rooted {
        let root: Vec<u8> = vec![47u8];
        assert(root@ =~= seq![47u8]);
        out.push(root);
        assert(out@.map_values(|c: Vec<u8>| c@) =~= seq![seq![47u8]]);
    } else if leading {
        let current: Vec<u8> = vec![46u8];
        assert(current@ =~= seq![46u8]);
        out.push(current);
        assert(out@.map_values(|c: Vec<u8>| c@) =~= seq![seq![46u8]]);
    } else {
        assert(out@.map_values(|c: Vec<u8>| c@) =~= Seq::<Seq<u8>>::empty());
    }
    let ghost head = out@.map_values(|c: Vec<u8>| c@);
    assert(head + name_components(bytes@) =~= path_components(bytes@));
    assert(name_components(bytes@).take(0) =~= Seq::<Seq<u8>>::empty());
    assert(head + name_components(bytes@).take(0) =~= head);
    let mut i: usize = 0;
    while i < names.len()
        invariant
            names@.map_values(|piece: Vec<u8>| piece@) == name_components(bytes@),
            head.len() <= 1,
            head + name_components(bytes@) == path_components(bytes@),
            0 <= i <= names@.len(),
            out@.map_values(|c: Vec<u8>| c@) == head + name_components(bytes@).take(i as int),
        decreases names.len() - i,
    {
        let ghost before = out@.map_values(|c: Vec<u8>| c@);
        let copy = copy_bytes(names[i].as_slice());
        out.push(copy);
        assert(name_components(bytes@).take(i + 1) =~= name_components(bytes@).take(i as int).push(
            names@[i as int]@,
        ));
        assert(out@.map_values(|c: Vec<u8>| c@) =~= before.push(copy@));
        i = i + 1;
    }
    assert(name_components(bytes@).take(names@.len() as int) =~= name_components(bytes@));
    out
}

/// `Path::starts_with` on paths given as bytes.
pub fn path_starts_with(path: &[u8], base: &[u8]) -> (begins: bool)
    ensures
        begins == path_begins_with(path@, base@),
{
    let p = components(path);
    let b = components(base);
    let ghost pv = p@.map_values(|c: Vec<u8>| c@);
    let ghost bv = b@.map_values(|c: Vec<u8>| c@);
    assert(pv.len() == p@.len() && bv.len() == b@.len());
    if b.len() > p.len() {
        return false;
    }
    let mut i: usize = 0;
    while i < b.len()
        invariant
            pv == p@.map_values(|c: Vec<u8>| c@),
            bv == b@.map_values(|c: Vec<u8>| c@),
            pv == path_components(path@),
            bv == path_components(base@),
            b@.len() <= p@.len(),
            0 <= i <= b@.len(),
            forall|j: int| 0 <= j < i ==> pv[j] == bv[j],
        decreases b.len() - i,
    {
        if !bytes_equal(p[i].as_slice(), b[i].as_slice()) {
            assert(pv.take(bv.len() as int)[i as int] != bv[i as int]);
            return false;
        }
        i = i + 1;
    }
    assert(pv.take(bv.len() as int) =~= bv);
    true
}

} // verus!
