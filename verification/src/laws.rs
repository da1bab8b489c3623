//! General properties of the world model, stated and proved once for every
//! well-formed game state.

use vstd::prelude::*;

use crate::game::{
    assoc_has, assoc_index, lemma_assoc_find, lemma_matching_edge_none, lemma_objects_at_iff,
    lemma_objects_at_no_dup, object_name, objects_at_spec, GameView, Location, Object,
};
use crate::text::contains_seq;

verus! {

/// Looking around always shows the current room's description verbatim: it is
/// the leading segment of `look`'s output, for any state whose current
/// location has a description.
pub proof fn lemma_look_shows_room_description(g: GameView)
    requires
        assoc_has(g.nodes, g.location),
    ensures
        g.look_text().subrange(0, g.location_text().len() as int) == g.location_text(),
        contains_seq(g.look_text(), g.location_text()),
{
    let d = g.location_text();
    let t = g.look_text();
    assert(t.subrange(0, 0 + d.len() as int) =~= d);
}

/// Walking in a direction that no outgoing path label contains changes
/// nothing: the state (hence any later `look`) is as before, and the reply is
/// exactly "you cannot go that way."
pub proof fn lemma_walk_no_match_keeps_state(g: GameView, dir: Seq<char>)
    requires
        forall|k: int|
            0 <= k < g.current_edges().len() ==> !contains_seq(
                (#[trigger] g.current_edges()[k]).1,
                dir,
            ),
    ensures
        g.walk_result(dir).0 == g,
        g.walk_result(dir).1 == "you cannot go that way."@,
        g.walk_result(dir).0.look_text() == g.look_text(),
{
    lemma_matching_edge_none(g.current_edges(), dir);
}

/// Picking up an object that does not lie at the current location never
/// changes the state: the reply is exactly "you cannot get that." and the
/// inventory reads as before.
pub proof fn lemma_pickup_failure_keeps_state(g: GameView, o: Object)
    requires
        !objects_at_spec(g.object_locations, g.location).contains(o),
    ensures
        g.pickup_result(o).0 == g,
        g.pickup_result(o).1 == "you cannot get that."@,
        g.pickup_result(o).0.inventory_text() == g.inventory_text(),
{
}

/// Picking up an object lying at the current location succeeds once and only
/// once: afterwards the object is carried, it is listed in the carried
/// objects exactly once, and a second pickup of the same object fails and
/// leaves the state unchanged.
pub proof fn lemma_pickup_round_trip(g: GameView, o: Object)
    requires
        g.wf(),
        objects_at_spec(g.object_locations, g.location).contains(o),
    ensures
        g.pickup_result(o).1 == "you are now carrying the "@ + object_name(o) + "."@,
        objects_at_spec(g.pickup_result(o).0.object_locations, Location::Body).contains(o),
        objects_at_spec(g.pickup_result(o).0.object_locations, Location::Body).no_duplicates(),
        g.pickup_result(o).0.pickup_result(o) == (g.pickup_result(o).0, "you cannot get that."@),
{
    let olocs = g.object_locations;
    lemma_objects_at_iff(olocs, g.location, o);
    let w = choose|k: int| 0 <= k < olocs.len() && #[trigger] olocs[k] == (o, g.location);
    assert(assoc_has(olocs, o));
    lemma_assoc_find(olocs, o);
    let i = assoc_index(olocs, o);
    let taken = g.pickup_result(o).0;
    let new_olocs = olocs.update(i, (o, Location::Body));
    assert(taken.object_locations == new_olocs);
    assert(forall|k: int|
        0 <= k < new_olocs.len() ==> (#[trigger] new_olocs[k]).0 == olocs[k].0);
    assert(forall|a: int, b: int|
        0 <= a < b < new_olocs.len() ==> (#[trigger] new_olocs[a]).0 != (
        #[trigger] new_olocs[b]).0);
    lemma_objects_at_iff(new_olocs, Location::Body, o);
    assert(new_olocs[i] == (o, Location::Body));
    lemma_objects_at_no_dup(new_olocs, Location::Body);
    assert(!objects_at_spec(new_olocs, taken.location).contains(o)) by {
        if objects_at_spec(new_olocs, taken.location).contains(o) {
            lemma_objects_at_iff(new_olocs, taken.location, o);
            let v = choose|k: int|
                0 <= k < new_olocs.len() && #[trigger] new_olocs[k] == (o, taken.location);
            assert(new_olocs[v].0 == new_olocs[i].0);
            assert(v != i);
        }
    }
}

} // verus!
