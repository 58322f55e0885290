//! Properties of the library stated and proved as theorems.

use vstd::prelude::*;

use crate::state::{create_room_spec, App};

verus! {

/// The room catalog after a sequence of `add_room` calls, one per name.
pub open spec fn rooms_after_creates(rooms: Seq<Seq<char>>, names: Seq<Seq<char>>) -> Seq<
    Seq<char>,
>
    decreases names.len(),
{
    if names.len() == 0 {
        rooms
    } else {
        rooms_after_creates(create_room_spec(rooms, names[0]), names.drop_first())
    }
}

/// Law: creating rooms under distinct names, none already in the catalog,
/// appends exactly those names, in creation order.
pub proof fn lemma_creates_distinct(rooms: Seq<Seq<char>>, names: Seq<Seq<char>>)
    requires
        forall|i: int, j: int| 0 <= i < j < names.len() ==> names[i] != names[j],
        forall|i: int| 0 <= i < names.len() ==> !rooms.contains(names[i]),
    ensures
        rooms_after_creates(rooms, names) == rooms + names,
    decreases names.len(),
{
    if names.len() == 0 {
        assert(rooms + names =~= rooms);
    } else {
        let name0 = names[0];
        assert(!rooms.contains(name0));
        let r1 = rooms.push(name0);
        assert(create_room_spec(rooms, name0) == r1);
        let rest = names.drop_first();
        assert forall|i: int| 0 <= i < rest.len() implies !r1.contains(rest[i]) by {
            assert(rest[i] == names[i + 1]);
            assert(names[i + 1] != name0);
            if r1.contains(names[i + 1]) {
                let k = choose|k: int| 0 <= k < r1.len() && r1[k] == names[i + 1];
                if k < rooms.len() {
                    assert(rooms[k] == names[i + 1]);
                    assert(rooms.contains(names[i + 1]));
                } else {
                    assert(r1[k] == name0);
                }
            }
        }
        lemma_creates_distinct(r1, rest);
        assert(rooms + names =~= r1 + rest);
    }
}

/// Law: starting from an empty catalog, a sequence of `add_room` calls
/// under distinct names yields exactly those names in creation order —
/// in particular, the catalog holds no duplicates.
pub proof fn lemma_creates_from_empty(names: Seq<Seq<char>>)
    requires
        forall|i: int, j: int| 0 <= i < j < names.len() ==> names[i] != names[j],
    ensures
        rooms_after_creates(Seq::empty(), names) == names,
        forall|i: int, j: int|
            0 <= i < j < rooms_after_creates(Seq::empty(), names).len()
                ==> rooms_after_creates(Seq::empty(), names)[i] != rooms_after_creates(
                Seq::empty(),
                names,
            )[j],
{
    lemma_creates_distinct(Seq::empty(), names);
    assert(Seq::<Seq<char>>::empty() + names =~= names);
}

/// Law: a well-formed session that is connected has a counterpart set.
pub proof fn lemma_connected_has_counterpart(app: App)
    requires
        app.wf(),
        app.connected,
    ensures
        app.connected_peer is Some,
{
}

/// Law: a well-formed session with a file request in flight names the
/// requested file.
pub proof fn lemma_requesting_names_file(app: App)
    requires
        app.wf(),
        app.requesting_file,
    ensures
        app.requested_file is Some,
{
}

} // verus!
