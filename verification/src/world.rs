//! The fixed default world: three rooms joined by reciprocal paths, four
//! objects on the floors, and the player starting in the living room.

use vstd::prelude::*;

use crate::game::{edge_list_view, wf_label, Game, GameView, Location, Object};
use crate::text::{is_space, lemma_two_word_label};

verus! {

/// The default world, exactly as [`Game::new`] builds it.
pub open spec fn default_world() -> GameView {
    GameView {
        location: Location::LivingLoom,
        nodes: seq![
            (Location::LivingLoom, "you are in the living-room."@),
            (Location::Garden, "you are in the garden"@),
            (Location::Attic, "you are in the attic"@),
        ],
        edges: seq![
            (
                Location::LivingLoom,
                seq![(Location::Garden, "west door"@), (Location::Attic, "upstairs ladder"@)],
            ),
            (Location::Garden, seq![(Location::LivingLoom, "east door"@)]),
            (Location::Attic, seq![(Location::LivingLoom, "downstairs ladder"@)]),
        ],
        object_locations: seq![
            (Object::Whiskey, Location::LivingLoom),
            (Object::Bucket, Location::LivingLoom),
            (Object::Chain, Location::Garden),
            (Object::Frog, Location::Garden),
        ],
    }
}

/// Each default path label is two words around a single space.
proof fn lemma_default_labels()
    ensures
        wf_label("west door"@),
        wf_label("upstairs ladder"@),
        wf_label("east door"@),
        wf_label("downstairs ladder"@),
{
    reveal_strlit("west door");
    reveal_strlit("upstairs ladder");
    reveal_strlit("east door");
    reveal_strlit("downstairs ladder");
    let wd = "west door"@;
    assert forall|i: int| 0 <= i < wd.len() implies (is_space(wd[i]) <==> i == 4) by {
        assert(i == 0 || i == 1 || i == 2 || i == 3 || i == 4 || i == 5 || i == 6 || i == 7 || i
            == 8);
    }
    lemma_two_word_label(wd, 4);
    let ul = "upstairs ladder"@;
    assert forall|i: int| 0 <= i < ul.len() implies (is_space(ul[i]) <==> i == 8) by {
        assert(i == 0 || i == 1 || i == 2 || i == 3 || i == 4 || i == 5 || i == 6 || i == 7 || i
            == 8 || i == 9 || i == 10 || i == 11 || i == 12 || i == 13 || i == 14);
    }
    lemma_two_word_label(ul, 8);
    let ed = "east door"@;
    assert forall|i: int| 0 <= i < ed.len() implies (is_space(ed[i]) <==> i == 4) by {
        assert(i == 0 || i == 1 || i == 2 || i == 3 || i == 4 || i == 5 || i == 6 || i == 7 || i
            == 8);
    }
    lemma_two_word_label(ed, 4);
    let dl = "downstairs ladder"@;
    assert forall|i: int| 0 <= i < dl.len() implies (is_space(dl[i]) <==> i == 10) by {
        assert(i == 0 || i == 1 || i == 2 || i == 3 || i == 4 || i == 5 || i == 6 || i == 7 || i
            == 8 || i == 9 || i == 10 || i == 11 || i == 12 || i == 13 || i == 14 || i == 15 || i
            == 16);
    }
    lemma_two_word_label(dl, 10);
}

/// The default world satisfies the game invariant.
pub proof fn lemma_default_world_wf()
    ensures
        default_world().wf(),
{
    let g = default_world();
    lemma_default_labels();
    assert(g.nodes[0].0 == Location::LivingLoom);
    assert(g.nodes[1].0 == Location::Garden);
    assert(g.nodes[2].0 == Location::Attic);
    assert(g.edges[0].0 == Location::LivingLoom);
    assert(g.edges[1].0 == Location::Garden);
    assert(g.edges[2].0 == Location::Attic);
    assert(g.wf_place(Location::LivingLoom));
    assert(g.wf_place(Location::Garden));
    assert(g.wf_place(Location::Attic));
    assert forall|i: int, j: int|
        0 <= i < g.edges.len() && 0 <= j < g.edges[i].1.len() implies g.wf_edge(
        #[trigger] g.edges[i].1[j],
    ) by {
        assert(i == 0 || i == 1 || i == 2);
        assert(g.edges[0].1.len() == 2);
        assert(g.edges[1].1.len() == 1);
        assert(g.edges[2].1.len() == 1);
    }
    assert forall|i: int, j: int|
        0 <= i < j < g.object_locations.len() implies (#[trigger] g.object_locations[i]).0 != (
    #[trigger] g.object_locations[j]).0 by {
        assert(i == 0 || i == 1 || i == 2);
        assert(j == 1 || j == 2 || j == 3);
    }
}

impl Game {
    /// The hardcoded world: living room, garden and attic, reciprocal paths
    /// between them, whiskey and bucket in the living room, chain and frog in
    /// the garden, and the player starting in the living room.
    pub fn new() -> (g: Game)
        ensures
            g@ == default_world(),
            g@.wf(),
    {
        let mut nodes: Vec<(Location, String)> = Vec::new();
        nodes.push((Location::LivingLoom, String::from_str("you are in the living-room.")));
        nodes.push((Location::Garden, String::from_str("you are in the garden")));
        nodes.push((Location::Attic, String::from_str("you are in the attic")));

        let mut living_exits: Vec<(Location, String)> = Vec::new();
        living_exits.push((Location::Garden, String::from_str("west door")));
        living_exits.push((Location::Attic, String::from_str("upstairs ladder")));
        let mut garden_exits: Vec<(Location, String)> = Vec::new();
        garden_exits.push((Location::LivingLoom, String::from_str("east door")));
        let mut attic_exits: Vec<(Location, String)> = Vec::new();
        attic_exits.push((Location::LivingLoom, String::from_str("downstairs ladder")));
        let mut edges: Vec<(Location, Vec<(Location, String)>)> = Vec::new();
        edges.push((Location::LivingLoom, living_exits));
        edges.push((Location::Garden, garden_exits));
        edges.push((Location::Attic, attic_exits));

        let mut object_locations: Vec<(Object, Location)> = Vec::new();
        object_locations.push((Object::Whiskey, Location::LivingLoom));
        object_locations.push((Object::Bucket, Location::LivingLoom));
        object_locations.push((Object::Chain, Location::Garden));
        object_locations.push((Object::Frog, Location::Garden));

        proof {
            let v = GameView {
                location: Location::LivingLoom,
                nodes: nodes@.map_values(|p: (Location, String)| (p.0, p.1@)),
                edges: edges@.map_values(
                    |e: (Location, Vec<(Location, String)>)| (e.0, edge_list_view(e.1@)),
                ),
                object_locations: object_locations@,
            };
            assert(v.nodes =~= default_world().nodes);
            assert(v.edges =~~= default_world().edges);
            assert(v.object_locations =~= default_world().object_locations);
            assert(v == default_world());
            lemma_default_world_wf();
        }
        Game::with_world(Location::LivingLoom, nodes, edges, object_locations)
    }
}

} // verus!
