//! Unix paths as bytes.

use vstd::prelude::*;

use crate::bytes;
use crate::bytes::{split_bytes, Separator};
use crate::text::bytes_equal;

verus! {

/// The byte between the names of a path.
pub const SLASH: u8 = 47;

/// The byte whose single occurrence names the current directory.
pub const DOT: u8 = 46;

/// What a path says, whatever its spelling: whether it starts at the root,
/// whether it starts at an explicit current directory, and the names on its
/// way. Repeated slashes and inner current directories say nothing.
#[verifier::ext_equal]
pub struct Outline {
    pub absolute: bool,
    pub here: bool,
    pub names: Seq<Seq<u8>>,
}

/// A piece between slashes that is a name.
pub open spec fn is_name(piece: Seq<u8>) -> bool {
    piece.len() > 0 && piece != seq![DOT]
}

pub open spec fn is_absolute(path: Seq<u8>) -> bool {
    path.len() > 0 && path[0] == SLASH
}

pub open spec fn outline(path: Seq<u8>) -> Outline {
    let pieces = bytes::split(path, Separator::Byte(SLASH));
    Outline {
        absolute: is_absolute(path),
        here: !is_absolute(path) && pieces[0] == seq![DOT],
        names: pieces.filter(|piece: Seq<u8>| is_name(piece)),
    }
}

/// The names of a path, as [`Outline`] lists them.
#[derive(Clone, Debug)]
struct Route {
    absolute: bool,
    here: bool,
    names: Vec<Vec<u8>>,
}

impl View for Route {
    type V = Outline;

    closed spec fn view(&self) -> Outline {
        Outline { absolute: self.absolute, here: self.here, names: bytes::pieces(self.names@) }
    }
}

fn is_dot(piece: &Vec<u8>) -> (r: bool)
    ensures
        r == (piece@ == seq![DOT]),
{
    let r = piece.len() == 1 && piece[0] == DOT;
    assert(r ==> piece@ =~= seq![DOT]);
    r
}

fn route_of(path: &[u8]) -> (r: Route)
    ensures
        r@ == outline(path@),
{
    let absolute = path.len() > 0 && path[0] == SLASH;
    let pieces = split_bytes(path, Separator::Byte(SLASH));
    let ghost all = bytes::pieces(pieces@);
    assert(all[0] == pieces@[0]@);
    let here = !absolute && is_dot(&pieces[0]);
    let mut names: Vec<Vec<u8>> = Vec::new();
    proof {
        reveal(Seq::filter);
    }
    assert(bytes::pieces(names@) =~= all.take(0).filter(|piece: Seq<u8>| is_name(piece)));
    for piece in it: pieces
        invariant
            all == bytes::pieces(it.seq()),
            bytes::pieces(names@) == all.take(it.index() as int).filter(
                |piece: Seq<u8>| is_name(piece),
            ),
    {
        let ghost index = it.index() as int;
        let ghost content = piece@;
        let ghost before = bytes::pieces(names@);
        proof {
            reveal(Seq::filter);
            assert(all.take(index + 1).drop_last() =~= all.take(index));
            assert(all.take(index + 1).last() == content);
        }
        if piece.len() > 0 && !is_dot(&piece) {
            names.push(piece);
            assert(bytes::pieces(names@) =~= before.push(content));
        }
    }
    assert(all.take(all.len() as int) =~= all);
    Route { absolute, here, names }
}

fn same_route(left: &Route, right: &Route) -> (r: bool)
    ensures
        r == (left@ == right@),
{
    if left.absolute != right.absolute || left.here != right.here || left.names.len()
        != right.names.len() {
        assert(left@.names.len() == left.names@.len() && right@.names.len() == right.names@.len());
        return false;
    }
    let mut index: usize = 0;
    while index < left.names.len()
        invariant
            index <= left.names.len(),
            left.names@.len() == right.names@.len(),
            forall|i: int| 0 <= i < index ==> left@.names[i] == right@.names[i],
        decreases left.names.len() - index,
    {
        if !bytes_equal(left.names[index].as_slice(), right.names[index].as_slice()) {
            assert(left@.names[index as int] != right@.names[index as int]);
            return false;
        }
        index += 1;
    }
    assert(left@ =~= right@);
    true
}

/// Whether two spellings name the same path.
pub fn same_path(left: &[u8], right: &[u8]) -> (r: bool)
    ensures
        r == (outline(left@) == outline(right@)),
{
    same_route(&route_of(left), &route_of(right))
}

/// Whether a path's last name stands in a directory.
pub fn stands_in(path: &[u8], directory: &[u8]) -> (r: bool)
    ensures
        r == (parent_outline(outline(path@)) == Some(outline(directory@))),
{
    let mut route = route_of(path);
    let ghost whole = route@;
    if route.names.len() > 0 {
        let _ = route.names.pop();
        assert(route@ =~= parent_outline(whole)->0);
    } else if route.here {
        route.here = false;
        assert(route@ =~= parent_outline(whole)->0);
    } else {
        return false;
    }
    same_route(&route, &route_of(directory))
}

/// The outline of the directory in which a path's last name stands.
pub open spec fn parent_outline(path: Outline) -> Option<Outline> {
    if path.names.len() > 0 {
        Some(Outline { absolute: path.absolute, here: path.here, names: path.names.drop_last() })
    } else if path.here {
        Some(Outline { absolute: false, here: false, names: Seq::empty() })
    } else {
        None
    }
}

/// The length of the shortest beginning of a path with an outline.
pub open spec fn is_shortest(path: Seq<u8>, length: int, wanted: Outline) -> bool {
    &&& 0 <= length <= path.len()
    &&& outline(path.take(length)) == wanted
    &&& forall|shorter: int|
        0 <= shorter < length ==> outline(#[trigger] path.take(shorter)) != wanted
}

/// The length of that beginning.
pub open spec fn shortest(path: Seq<u8>, wanted: Outline) -> int {
    choose|length: int| is_shortest(path, length, wanted)
}

/// The directory in which a path's last name stands: the shortest beginning of
/// the path that says so.
pub open spec fn parent(path: Seq<u8>) -> Option<Seq<u8>> {
    match parent_outline(outline(path)) {
        None => None,
        Some(wanted) => Some(path.take(shortest(path, wanted))),
    }
}

/// The shortest beginning is unique, so it is the parent.
pub proof fn lemma_parent(path: Seq<u8>, length: int, wanted: Outline)
    requires
        parent_outline(outline(path)) == Some(wanted),
        is_shortest(path, length, wanted),
    ensures
        parent(path) == Some(path.take(length)),
{
    let other = shortest(path, wanted);
    assert(is_shortest(path, other, wanted));
    assert(outline(path.take(length)) == wanted && outline(path.take(other)) == wanted);
}

/// Among the beginnings with an outline there is a shortest one.
proof fn lemma_shortest_exists(path: Seq<u8>, length: int, wanted: Outline)
    requires
        0 <= length <= path.len(),
        outline(path.take(length)) == wanted,
    ensures
        exists|least: int| is_shortest(path, least, wanted),
    decreases length,
{
    if exists|shorter: int|
        0 <= shorter < length && outline(#[trigger] path.take(shorter)) == wanted {
        let shorter = choose|shorter: int|
            0 <= shorter < length && outline(#[trigger] path.take(shorter)) == wanted;
        lemma_shortest_exists(path, shorter, wanted);
    } else {
        assert(is_shortest(path, length, wanted));
    }
}

/// A path with a parent has a beginning that names it.
proof fn lemma_parent_is_a_beginning(path: Seq<u8>) -> (length: int)
    requires
        parent_outline(outline(path)) is Some,
    ensures
        0 <= length <= path.len(),
        outline(path.take(length)) == parent_outline(outline(path))->0,
    decreases path.len(),
{
    let by = Separator::Byte(SLASH);
    let wanted = parent_outline(outline(path))->0;
    let empty = Seq::<u8>::empty();
    reveal_with_fuel(Seq::filter, 2);
    assert(bytes::split(empty, by) =~= seq![empty]);
    assert(seq![empty].drop_last() =~= Seq::<Seq<u8>>::empty());
    assert(bytes::split(empty, by).filter(|piece: Seq<u8>| is_name(piece)) =~= Seq::<
        Seq<u8>,
    >::empty());
    assert(empty != seq![DOT]) by {
        assert(empty.len() == 0);
    }
    assert(outline(empty) =~= Outline { absolute: false, here: false, names: Seq::empty() });
    if path.len() == 0 {
        assert(path =~= empty);
        0
    } else {
        let shorter = path.drop_last();
        let byte = path.last();
        let before = bytes::split(shorter, by);
        let pieces = bytes::split(path, by);
        lemma_split_filled(shorter, by);
        assert(path.take(0) =~= empty);
        assert(path.take(shorter.len() as int) =~= shorter);
        if shorter.len() > 0 {
            assert(shorter[0] == path[0]);
        } else {
            assert(shorter =~= empty);
        }
        let rest = before.drop_last();
        if byte == SLASH {
            assert(pieces == before.push(empty));
            assert(pieces.drop_last() =~= before);
            assert(outline(path).names =~= outline(shorter).names);
            if shorter.len() == 0 {
                assert(before =~= seq![empty]);
                assert(outline(path).names =~= Seq::<Seq<u8>>::empty());
                0
            } else {
                assert(pieces[0] == before[0]);
                assert(outline(path) =~= outline(shorter));
                let length = lemma_parent_is_a_beginning(shorter);
                assert(path.take(length) =~= shorter.take(length));
                length
            }
        } else {
            let last = before.last();
            assert(pieces.drop_last() =~= rest);
            assert(pieces.last() == last.push(byte));
            if is_name(last.push(byte)) {
                assert(outline(path).names.drop_last() =~= rest.filter(
                    |piece: Seq<u8>| is_name(piece),
                ));
                if is_name(last) {
                    assert(outline(shorter).names.drop_last() =~= rest.filter(
                        |piece: Seq<u8>| is_name(piece),
                    ));
                    assert(shorter.len() > 0) by {
                        if shorter.len() == 0 {
                            assert(before =~= seq![empty]);
                        }
                    }
                    if before.len() > 1 {
                        assert(pieces[0] == before[0]);
                    }
                    assert(parent_outline(outline(shorter))->0 =~= wanted);
                    let length = lemma_parent_is_a_beginning(shorter);
                    assert(path.take(length) =~= shorter.take(length));
                    length
                } else if before.len() > 1 {
                    assert(pieces[0] == before[0]);
                    assert(shorter.len() > 0) by {
                        if shorter.len() == 0 {
                            assert(before =~= seq![empty]);
                        }
                    }
                    assert(outline(shorter) =~= wanted);
                    shorter.len() as int
                } else {
                    assert(rest =~= Seq::<Seq<u8>>::empty());
                    lemma_split_single(shorter, SLASH);
                    assert(shorter == last);
                    assert(!is_absolute(path)) by {
                        if shorter.len() > 0 {
                            assert(shorter =~= seq![DOT]);
                        }
                    }
                    assert(pieces[0] == last.push(byte));
                    assert(wanted =~= outline(empty));
                    0
                }
            } else {
                assert(last.push(byte) =~= seq![DOT]);
                assert(last =~= empty) by {
                    assert(last.push(byte).len() == 1);
                }
                assert(outline(path).names =~= rest.filter(|piece: Seq<u8>| is_name(piece)));
                assert(outline(shorter).names =~= rest.filter(|piece: Seq<u8>| is_name(piece)));
                if before.len() > 1 {
                    assert(pieces[0] == before[0]);
                    assert(shorter.len() > 0) by {
                        if shorter.len() == 0 {
                            assert(before =~= seq![empty]);
                        }
                    }
                    assert(outline(path) =~= outline(shorter));
                    let length = lemma_parent_is_a_beginning(shorter);
                    assert(path.take(length) =~= shorter.take(length));
                    length
                } else {
                    assert(rest =~= Seq::<Seq<u8>>::empty());
                    assert(wanted =~= outline(empty));
                    0
                }
            }
        }
    }
}

/// Where a path has a parent, the parent is the directory of its last name.
pub proof fn parents_hold_their_paths(path: Seq<u8>)
    ensures
        parent(path) is Some <==> parent_outline(outline(path)) is Some,
        parent(path) matches Some(directory) ==> parent_outline(outline(path)) == Some(
            outline(directory),
        ),
{
    if parent_outline(outline(path)) is Some {
        let length = lemma_parent_is_a_beginning(path);
        let wanted = parent_outline(outline(path))->0;
        lemma_shortest_exists(path, length, wanted);
        assert(is_shortest(path, shortest(path, wanted), wanted));
    }
}

/// A single piece is the whole text.
proof fn lemma_split_single(source: Seq<u8>, separator: u8)
    requires
        bytes::split(source, Separator::Byte(separator)).len() == 1,
    ensures
        bytes::split(source, Separator::Byte(separator))[0] == source,
    decreases source.len(),
{
    let by = Separator::Byte(separator);
    if source.len() == 0 {
        assert(source =~= Seq::<u8>::empty());
    } else {
        lemma_split_filled(source.drop_last(), by);
        lemma_split_single(source.drop_last(), separator);
        assert(source.drop_last().push(source.last()) =~= source);
    }
}

pub fn parent_of(path: &[u8]) -> (r: Option<Vec<u8>>)
    ensures
        match parent(path@) {
            Some(directory) => r matches Some(found) && found@ == directory,
            None => r is None,
        },
{
    let mut route = route_of(path);
    let ghost whole = route@;
    if route.names.len() > 0 {
        let _ = route.names.pop();
        assert(route@ =~= parent_outline(whole)->0);
    } else if route.here {
        route.here = false;
        assert(route@ =~= parent_outline(whole)->0);
    } else {
        return None;
    }
    let ghost wanted = parent_outline(whole)->0;
    let mut length: usize = 0;
    loop
        invariant
            length <= path.len(),
            route@ == wanted,
            parent_outline(outline(path@)) == Some(wanted),
            forall|shorter: int|
                0 <= shorter < length ==> outline(#[trigger] path@.take(shorter)) != wanted,
        decreases path.len() - length,
    {
        let start = vstd::slice::slice_subrange(path, 0, length);
        assert(start@ =~= path@.take(length as int));
        if same_route(&route_of(start), &route) {
            proof {
                assert(is_shortest(path@, length as int, wanted));
                lemma_parent(path@, length as int, wanted);
            }
            return Some(vstd::slice::slice_to_vec(start));
        }
        if length == path.len() {
            proof {
                let named = lemma_parent_is_a_beginning(path@);
                assert(outline(path@.take(named)) == wanted);
                assert(path@.take(length as int) =~= start@);
            }
            return None;
        }
        length += 1;
    }
}

/// The last name of a path, unless it leads upwards.
pub open spec fn file_name(path: Seq<u8>) -> Option<Seq<u8>> {
    let names = outline(path).names;
    if names.len() > 0 && names.last() != seq![DOT, DOT] {
        Some(names.last())
    } else {
        None
    }
}

pub fn file_name_of(path: &[u8]) -> (r: Option<Vec<u8>>)
    ensures
        match file_name(path@) {
            Some(name) => r matches Some(found) && found@ == name,
            None => r is None,
        },
{
    let mut route = route_of(path);
    let ghost names = outline(path@).names;
    assert(names.len() == route.names@.len());
    assert(names.len() > 0 ==> names.last() == route.names@.last()@);
    match route.names.pop() {
        None => None,
        Some(name) => {
            let upwards = name.len() == 2 && name[0] == DOT && name[1] == DOT;
            assert(upwards <==> name@ =~= seq![DOT, DOT]);
            if upwards {
                None
            } else {
                Some(name)
            }
        },
    }
}

/// A path from the root on which no name leads upwards.
pub open spec fn absolute_and_normalized(path: Seq<u8>) -> bool {
    is_absolute(path) && !outline(path).names.contains(seq![DOT, DOT])
}

pub fn is_absolute_and_normalized(path: &[u8]) -> (r: bool)
    ensures
        r == absolute_and_normalized(path@),
{
    let route = route_of(path);
    if !route.absolute {
        return false;
    }
    let mut index: usize = 0;
    while index < route.names.len()
        invariant
            index <= route.names.len(),
            route@ == outline(path@),
            route.absolute,
            forall|i: int| 0 <= i < index ==> route@.names[i] != seq![DOT, DOT],
        decreases route.names.len() - index,
    {
        let name = &route.names[index];
        assert(route@.names[index as int] == name@);
        if name.len() == 2 && name[0] == DOT && name[1] == DOT {
            assert(name@ =~= seq![DOT, DOT]);
            assert(route@.names.contains(name@));
            return false;
        }
        assert(name@ != seq![DOT, DOT]);
        index += 1;
    }
    assert(!route@.names.contains(seq![DOT, DOT]));
    true
}

/// A name below a directory.
pub open spec fn below(directory: Seq<u8>, name: Seq<u8>) -> Seq<u8> {
    if directory.len() > 0 && directory.last() != SLASH {
        directory.push(SLASH) + name
    } else {
        directory + name
    }
}

/// Appends a relative path to a directory.
pub fn join_path(directory: &[u8], name: &[u8]) -> (r: Vec<u8>)
    ensures
        r@ == below(directory@, name@),
{
    let mut path = vstd::slice::slice_to_vec(directory);
    if directory.len() > 0 && directory[directory.len() - 1] != SLASH {
        path.push(SLASH);
    }
    let ghost start = path@;
    let mut index: usize = 0;
    assert(start + name@.take(0) =~= start);
    while index < name.len()
        invariant
            index <= name.len(),
            path@ == start + name@.take(index as int),
        decreases name.len() - index,
    {
        path.push(name[index]);
        assert(start + name@.take(index + 1) =~= (start + name@.take(index as int)).push(
            name@[index as int],
        ));
        index += 1;
    }
    assert(name@.take(index as int) =~= name@);
    path
}

/// Splitting a text that a separator divides gives the pieces of both parts.
proof fn lemma_split_joined(left: Seq<u8>, right: Seq<u8>, separator: u8)
    ensures
        bytes::split(left.push(separator) + right, Separator::Byte(separator)) == bytes::split(
            left,
            Separator::Byte(separator),
        ) + bytes::split(right, Separator::Byte(separator)),
    decreases right.len(),
{
    let by = Separator::Byte(separator);
    let whole = left.push(separator) + right;
    lemma_split_filled(left, by);
    lemma_split_filled(right, by);
    if right.len() == 0 {
        assert(whole =~= left.push(separator));
        assert(whole.drop_last() =~= left);
        assert(bytes::split(left, by).push(Seq::<u8>::empty()) =~= bytes::split(left, by)
            + bytes::split(right, by));
    } else {
        let shorter = right.drop_last();
        lemma_split_joined(left, shorter, separator);
        lemma_split_filled(shorter, by);
        assert(whole.drop_last() =~= left.push(separator) + shorter);
        assert(whole.last() == right.last());
        let before = bytes::split(left, by) + bytes::split(shorter, by);
        assert(before.last() == bytes::split(shorter, by).last());
        assert(before.drop_last() =~= bytes::split(left, by) + bytes::split(
            shorter,
            by,
        ).drop_last());
        assert(bytes::split(whole, by) =~= bytes::split(left, by) + bytes::split(right, by));
    }
}

proof fn lemma_split_filled(source: Seq<u8>, separator: Separator)
    ensures
        bytes::split(source, separator).len() > 0,
    decreases source.len(),
{
    if source.len() > 0 {
        lemma_split_filled(source.drop_last(), separator);
    }
}

proof fn lemma_split_alone(source: Seq<u8>, separator: u8)
    requires
        !source.contains(separator),
    ensures
        bytes::split(source, Separator::Byte(separator)) == seq![source],
    decreases source.len(),
{
    if source.len() > 0 {
        let shorter = source.drop_last();
        assert(source.contains(source.last()));
        assert forall|byte: u8| shorter.contains(byte) implies source.contains(byte) by {
            let i = choose|i: int| 0 <= i < shorter.len() && shorter[i] == byte;
            assert(source[i] == byte);
        }
        lemma_split_alone(shorter, separator);
        assert(shorter.push(source.last()) =~= source);
        assert(seq![shorter].drop_last().push(source) =~= seq![source]);
    } else {
        assert(source =~= Seq::<u8>::empty());
    }
}

proof fn lemma_filter_joined(left: Seq<Seq<u8>>, right: Seq<Seq<u8>>)
    ensures
        (left + right).filter(|piece: Seq<u8>| is_name(piece)) == left.filter(
            |piece: Seq<u8>| is_name(piece),
        ) + right.filter(|piece: Seq<u8>| is_name(piece)),
    decreases right.len(),
{
    reveal(Seq::filter);
    if right.len() == 0 {
        assert(left + right =~= left);
    } else {
        lemma_filter_joined(left, right.drop_last());
        assert((left + right).drop_last() =~= left + right.drop_last());
        assert((left + right).last() == right.last());
    }
}

/// A name below a directory adds exactly that name: its directory is the
/// directory, and its file name is the name.
pub proof fn names_stay_below_their_directory(directory: Seq<u8>, name: Seq<u8>)
    requires
        is_name(name),
        name != seq![DOT, DOT],
        !name.contains(SLASH),
    ensures
        outline(below(directory, name)).names == outline(directory).names.push(name),
        parent_outline(outline(below(directory, name))) == Some(outline(directory)),
        file_name(below(directory, name)) == Some(name),
{
    let by = Separator::Byte(SLASH);
    let path = below(directory, name);
    lemma_split_alone(name, SLASH);
    lemma_split_filled(directory, by);
    reveal(Seq::filter);
    assert(seq![name].drop_last() =~= Seq::<Seq<u8>>::empty());
    assert(seq![name].filter(|piece: Seq<u8>| is_name(piece)) =~= seq![name]);
    let pieces = bytes::split(directory, by);
    if directory.len() == 0 {
        assert(path =~= name);
        assert(name[0] != SLASH) by {
            assert(name.contains(name[0]));
        }
        assert(directory =~= Seq::<u8>::empty());
        assert(pieces =~= seq![Seq::<u8>::empty()]);
        assert(pieces.drop_last() =~= Seq::<Seq<u8>>::empty());
        assert(pieces[0] != seq![DOT]) by {
            assert(pieces[0].len() == 0);
        }
        assert(outline(directory).names =~= Seq::<Seq<u8>>::empty());
    } else if directory.last() != SLASH {
        lemma_split_joined(directory, name, SLASH);
        lemma_filter_joined(pieces, seq![name]);
        assert(path[0] == directory[0]);
    } else {
        let shorter = directory.drop_last();
        assert(directory =~= shorter.push(SLASH));
        lemma_split_joined(shorter, name, SLASH);
        lemma_filter_joined(bytes::split(shorter, by), seq![name]);
        lemma_split_filled(shorter, by);
        assert(pieces =~= bytes::split(shorter, by).push(Seq::<u8>::empty()));
        assert(pieces.drop_last() =~= bytes::split(shorter, by));
        assert(!is_name(Seq::<u8>::empty()));
        assert(path[0] == directory[0]);
        assert(pieces[0] == bytes::split(shorter, by)[0]);
    }
    assert(outline(path).names =~= outline(directory).names.push(name));
    assert(outline(path).names.drop_last() =~= outline(directory).names);
    assert(parent_outline(outline(path))->0 =~= outline(directory));
}

/// A path falls into names at its slashes; empty pieces and single dots are none.
pub proof fn slashes_part_the_names(left: Seq<u8>, right: Seq<u8>, piece: Seq<u8>)
    requires
        !piece.contains(47),
    ensures
        outline(left.push(47) + right).names == outline(left).names + outline(right).names,
        outline(left.push(47)).names == outline(left).names,
        piece.len() > 0 && piece != seq![46u8] ==> outline(piece).names == seq![piece],
        piece.len() == 0 || piece == seq![46u8] ==> outline(piece).names.len() == 0,
        outline(left).absolute <==> left.len() > 0 && left[0] == 47,
        outline(piece).here <==> piece == seq![46u8],
        outline(piece.push(47) + right).here <==> piece == seq![46u8],
{
    let by = Separator::Byte(47);
    let named = |piece: Seq<u8>| is_name(piece);
    lemma_split_joined(left, right, 47);
    lemma_filter_joined(bytes::split(left, by), bytes::split(right, by));
    lemma_split_joined(left, Seq::empty(), 47);
    assert(left.push(47) + Seq::<u8>::empty() =~= left.push(47));
    lemma_filter_joined(bytes::split(left, by), bytes::split(Seq::empty(), by));
    assert(bytes::split(Seq::<u8>::empty(), by) =~= seq![Seq::<u8>::empty()]);
    reveal_with_fuel(Seq::filter, 2);
    assert(seq![Seq::<u8>::empty()].drop_last() =~= Seq::<Seq<u8>>::empty());
    assert(outline(Seq::<u8>::empty()).names =~= Seq::<Seq<u8>>::empty());
    assert(outline(left).names + Seq::<Seq<u8>>::empty() =~= outline(left).names);
    lemma_split_alone(piece, 47);
    assert(seq![piece].drop_last() =~= Seq::<Seq<u8>>::empty());
    if piece.len() > 0 {
        assert(piece.contains(piece[0]));
    }
    if piece.len() > 0 && piece != seq![46u8] {
        assert(outline(piece).names =~= seq![piece]);
    } else {
        assert(outline(piece).names =~= Seq::<Seq<u8>>::empty());
    }
    lemma_split_joined(piece, right, 47);
    assert(bytes::split(piece.push(47) + right, by)[0] == piece);
    if piece.len() > 0 {
        assert((piece.push(47) + right)[0] == piece[0]);
    }
}

/// Two paths are the same exactly where they start alike and have the same names;
/// one stands in another where it has one name more.
pub proof fn paths_are_told_apart_by_their_names(
    left: &[u8],
    right: &[u8],
    same: bool,
    stands: bool,
)
    requires
        call_ensures(same_path, (left, right), same),
        call_ensures(stands_in, (left, right), stands),
        is_absolute(left@),
        is_absolute(right@),
    ensures
        same <==> outline(left@).names == outline(right@).names,
        stands <==> outline(left@).names.len() > 0 && outline(left@).names.drop_last() == outline(
            right@,
        ).names,
{
}

/// The file name of a path is its last name, unless that leads upwards; a path is
/// normalized where it starts at the root and no name leads upwards.
pub proof fn last_names_are_file_names(path: &[u8], name: Option<Vec<u8>>, normalized: bool)
    requires
        call_ensures(file_name_of, (path,), name),
        call_ensures(is_absolute_and_normalized, (path,), normalized),
    ensures
        name is Some <==> outline(path@).names.len() > 0 && outline(path@).names.last()
            != seq![46u8, 46u8],
        name matches Some(found) ==> found@ == outline(path@).names.last(),
        normalized <==> path@.len() > 0 && path@[0] == 47 && forall|i: int|
            0 <= i < outline(path@).names.len() ==> #[trigger] outline(path@).names[i]
                != seq![46u8, 46u8],
{
    let names = outline(path@).names;
    if names.contains(seq![DOT, DOT]) {
        let i = choose|i: int| 0 <= i < names.len() && names[i] == seq![DOT, DOT];
        assert(names[i] == seq![46u8, 46u8]);
    }
    if normalized {
        assert forall|i: int| 0 <= i < names.len() implies #[trigger] names[i] != seq![
            46u8,
            46u8,
        ] by {
            if names[i] == seq![46u8, 46u8] {
                assert(names.contains(seq![DOT, DOT]));
            }
        }
    }
}

/// A name is put below a directory with exactly one slash between them.
pub proof fn names_are_joined_with_one_slash(directory: &[u8], name: &[u8], r: Vec<u8>)
    requires
        call_ensures(join_path, (directory, name), r),
    ensures
        directory@.len() == 0 ==> r@ == name@,
        directory@.len() > 0 && directory@.last() == 47 ==> r@ == directory@ + name@,
        directory@.len() > 0 && directory@.last() != 47 ==> r@ == directory@.push(47) + name@,
{
    assert(Seq::<u8>::empty() + name@ =~= name@);
    if directory@.len() == 0 {
        assert(directory@ =~= Seq::<u8>::empty());
    }
}

/// The directory of a path is a beginning of it, without a slash at its end unless
/// it is the root, and has all of its names but the last.
pub proof fn parents_are_beginnings(path: &[u8], r: Option<Vec<u8>>)
    requires
        call_ensures(parent_of, (path,), r),
    ensures
        r is Some <==> outline(path@).names.len() > 0 || outline(path@).here,
        r matches Some(directory) ==> {
            &&& directory@.len() <= path@.len()
            &&& directory@ == path@.take(directory@.len() as int)
            &&& directory@.len() > 1 ==> directory@.last() != 47
            &&& outline(path@).names.len() > 0 ==> outline(directory@).names == outline(
                path@,
            ).names.drop_last()
            &&& outline(path@).names.len() > 0 ==> outline(directory@).absolute == outline(
                path@,
            ).absolute
        },
{
    parents_hold_their_paths(path@);
    if let Some(directory) = r {
        let wanted = parent_outline(outline(path@))->0;
        let some = lemma_parent_is_a_beginning(path@);
        lemma_shortest_exists(path@, some, wanted);
        let length = shortest(path@, wanted);
        assert(is_shortest(path@, length, wanted));
        lemma_parent(path@, length, wanted);
        if directory@.len() > 1 && directory@.last() == 47 {
            let shorter = path@.take(length - 1);
            assert(path@.take(length) =~= shorter.push(47));
            slashes_part_the_names(shorter, Seq::empty(), Seq::empty());
            let by = Separator::Byte(47);
            lemma_split_joined(shorter, Seq::empty(), 47);
            assert(shorter.push(47) + Seq::<u8>::empty() =~= shorter.push(47));
            lemma_split_filled(shorter, by);
            assert(shorter[0] == directory@[0]);
            assert(outline(shorter) == outline(path@.take(length)));
        }
    }
}

} // verus!
