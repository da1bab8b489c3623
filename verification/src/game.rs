//! The world model: locations, portable objects, labelled paths between
//! locations, and the player's position, together with the four player-facing
//! operations `look`, `walk`, `pickup` and `inventory`.
//!
//! Every operation's return string and state change is pinned down by a spec
//! function over [`GameView`], the mathematical view of the game state.

use vstd::prelude::*;

use crate::text::{
    contains_seq, first_token, lemma_next_non_space, scan_token, second_token, skip_spaces,
    str_contains,
};

verus! {

/// A portable object. The set is fixed; each object has a canonical lowercase
/// name (for parsing) and a display name (for descriptions).
#[derive(Clone, Copy, Debug, PartialEq, Eq, Structural)]
pub enum Object {
    Whiskey,
    Bucket,
    Frog,
    Chain,
}

/// A room of the world, plus the distinguished pseudo-location `Body`, which
/// marks an object as carried by the player. The player never stands at
/// `Body`.
#[derive(Clone, Copy, Debug, PartialEq, Eq, Structural)]
pub enum Location {
    LivingLoom,
    Garden,
    Attic,
    Body,
}

/// The display name of an object, as it appears in descriptions.
pub open spec fn object_name(o: Object) -> Seq<char> {
    match o {
        Object::Whiskey => "Whiskey"@,
        Object::Bucket => "Bucket"@,
        Object::Frog => "Frog"@,
        Object::Chain => "Chain"@,
    }
}

/// The object with the given canonical lowercase name, if any.
pub open spec fn object_of_name(s: Seq<char>) -> Option<Object> {
    if s == "whiskey"@ {
        Some(Object::Whiskey)
    } else if s == "bucket"@ {
        Some(Object::Bucket)
    } else if s == "frog"@ {
        Some(Object::Frog)
    } else if s == "chain"@ {
        Some(Object::Chain)
    } else {
        None
    }
}

/// Whether the association list `s` has an entry with the given key.
pub open spec fn assoc_has<K, V>(s: Seq<(K, V)>, key: K) -> bool {
    exists|i: int| 0 <= i < s.len() && (#[trigger] s[i]).0 == key
}

/// The value of the first entry of `s` with the given key, if any.
pub open spec fn assoc_find<K, V>(s: Seq<(K, V)>, key: K) -> Option<V>
    decreases s.len(),
{
    if s.len() == 0 {
        None
    } else if s[0].0 == key {
        Some(s[0].1)
    } else {
        assoc_find(s.drop_first(), key)
    }
}

/// The index of the first entry of `s` with the given key; `s.len()` if none.
pub open spec fn assoc_index<K, V>(s: Seq<(K, V)>, key: K) -> int
    decreases s.len(),
{
    if s.len() == 0 {
        0
    } else if s[0].0 == key {
        0
    } else {
        1 + assoc_index(s.drop_first(), key)
    }
}

/// `assoc_find` and `assoc_index` agree: the first entry with the key sits at
/// `assoc_index`, holds `assoc_find`'s value, and nothing with the key comes
/// before it; when the key is absent both report so.
pub proof fn lemma_assoc_find<K, V>(s: Seq<(K, V)>, key: K)
    ensures
        assoc_has(s, key) <==> assoc_find(s, key) is Some,
        assoc_find(s, key) is Some ==> {
            let i = assoc_index(s, key);
            &&& 0 <= i < s.len()
            &&& s[i].0 == key
            &&& s[i].1 == assoc_find(s, key).unwrap()
            &&& forall|k: int| 0 <= k < i ==> (#[trigger] s[k]).0 != key
        },
        assoc_find(s, key) is None ==> assoc_index(s, key) == s.len(),
    decreases s.len(),
{
    if s.len() > 0 && s[0].0 != key {
        lemma_assoc_find(s.drop_first(), key);
        assert(forall|i: int|
            1 <= i < s.len() ==> (#[trigger] s[i]) == s.drop_first()[i - 1]);
        if assoc_has(s, key) {
            let w = choose|i: int| 0 <= i < s.len() && (#[trigger] s[i]).0 == key;
            assert(s.drop_first()[w - 1].0 == key);
        }
        if assoc_has(s.drop_first(), key) {
            let w = choose|i: int|
                0 <= i < s.drop_first().len() && (#[trigger] s.drop_first()[i]).0 == key;
            assert(s[w + 1].0 == key);
        }
    }
}

/// A label is well formed when it splits into at least two
/// whitespace-separated words: a direction and a path kind.
pub open spec fn wf_label(label: Seq<char>) -> bool {
    second_token(label) is Some
}

/// The mathematical view of a game state.
pub struct GameView {
    /// Where the player stands.
    pub location: Location,
    /// Room descriptions, one per location, in insertion order.
    pub nodes: Seq<(Location, Seq<char>)>,
    /// Outgoing paths of each location: `(target, label)` pairs in insertion
    /// order.
    pub edges: Seq<(Location, Seq<(Location, Seq<char>)>)>,
    /// The holder of each object: a location, or `Body` when carried.
    pub object_locations: Seq<(Object, Location)>,
}

impl GameView {
    /// A location the player may stand at: a real room with a description and
    /// an edge list.
    pub open spec fn wf_place(self, l: Location) -> bool {
        &&& l != Location::Body
        &&& assoc_has(self.nodes, l)
        &&& assoc_has(self.edges, l)
    }

    /// An edge leads to a well-formed place and carries a well-formed label.
    pub open spec fn wf_edge(self, e: (Location, Seq<char>)) -> bool {
        &&& self.wf_place(e.0)
        &&& wf_label(e.1)
    }

    /// Every edge of every edge list is well formed.
    pub open spec fn wf_edges(self) -> bool {
        forall|i: int, j: int|
            0 <= i < self.edges.len() && 0 <= j < self.edges[i].1.len() ==> self.wf_edge(
                #[trigger] self.edges[i].1[j],
            )
    }

    /// Each object has exactly one holder entry.
    pub open spec fn unique_objects(self) -> bool {
        forall|i: int, j: int|
            0 <= i < j < self.object_locations.len() ==> (#[trigger] self.object_locations[i]).0
                != (#[trigger] self.object_locations[j]).0
    }

    /// Well-formedness of the whole state: the player stands at a well-formed
    /// place, all edges are well formed, and object holders are unique.
    pub open spec fn wf(self) -> bool {
        &&& self.wf_place(self.location)
        &&& self.wf_edges()
        &&& self.unique_objects()
    }

    /// The room description of the current location.
    pub open spec fn location_text(self) -> Seq<char> {
        match assoc_find(self.nodes, self.location) {
            Some(t) => t,
            None => Seq::empty(),
        }
    }

    /// The outgoing edges of the current location.
    pub open spec fn current_edges(self) -> Seq<(Location, Seq<char>)> {
        match assoc_find(self.edges, self.location) {
            Some(es) => es,
            None => Seq::empty(),
        }
    }
}

/// The sentence describing one path: for a label "<direction> <kind>",
/// "there is a <kind> going <direction> from here."
pub open spec fn path_sentence(label: Seq<char>) -> Seq<char>
    recommends
        wf_label(label),
{
    "there is a "@ + second_token(label).unwrap() + " going "@ + first_token(label).unwrap()
        + " from here."@
}

/// The sentences for a list of paths, joined with single spaces in list
/// order.
pub open spec fn paths_text(es: Seq<(Location, Seq<char>)>) -> Seq<char>
    decreases es.len(),
{
    if es.len() == 0 {
        Seq::empty()
    } else if es.len() == 1 {
        path_sentence(es[0].1)
    } else {
        paths_text(es.drop_last()) + " "@ + path_sentence(es.last().1)
    }
}

/// The objects whose holder is `l`, in entry order.
pub open spec fn objects_at_spec(olocs: Seq<(Object, Location)>, l: Location) -> Seq<Object>
    decreases olocs.len(),
{
    if olocs.len() == 0 {
        Seq::empty()
    } else if olocs.last().1 == l {
        objects_at_spec(olocs.drop_last(), l).push(olocs.last().0)
    } else {
        objects_at_spec(olocs.drop_last(), l)
    }
}

/// The sentence describing one object lying on the floor.
pub open spec fn object_sentence(o: Object) -> Seq<char> {
    "you see a "@ + object_name(o) + " on the floor."@
}

/// The sentences for the objects on the floor, joined with single spaces.
pub open spec fn objects_text(objs: Seq<Object>) -> Seq<char>
    decreases objs.len(),
{
    if objs.len() == 0 {
        Seq::empty()
    } else if objs.len() == 1 {
        object_sentence(objs[0])
    } else {
        objects_text(objs.drop_last()) + " "@ + object_sentence(objs.last())
    }
}

/// The inventory listing after "items-": a leading space then the display
/// name, for each carried object in entry order.
pub open spec fn items_text(objs: Seq<Object>) -> Seq<char>
    decreases objs.len(),
{
    if objs.len() == 0 {
        Seq::empty()
    } else {
        items_text(objs.drop_last()) + " "@ + object_name(objs.last())
    }
}

impl GameView {
    /// What `look` returns: room description, path sentences and floor-object
    /// sentences, joined by single spaces (empty segments leave their spaces
    /// behind).
    pub open spec fn look_text(self) -> Seq<char> {
        self.location_text() + " "@ + paths_text(self.current_edges()) + " "@ + objects_text(
            objects_at_spec(self.object_locations, self.location),
        )
    }

    /// What `inventory` returns.
    pub open spec fn inventory_text(self) -> Seq<char> {
        "items-"@ + items_text(objects_at_spec(self.object_locations, Location::Body))
    }
}

/// The first edge of `es` whose label contains `dir` as a substring, if any.
pub open spec fn matching_edge(es: Seq<(Location, Seq<char>)>, dir: Seq<char>) -> Option<
    (Location, Seq<char>),
>
    decreases es.len(),
{
    if es.len() == 0 {
        None
    } else if contains_seq(es[0].1, dir) {
        Some(es[0])
    } else {
        matching_edge(es.drop_first(), dir)
    }
}

impl GameView {
    /// What `walk` does: the new state and the returned string.
    pub open spec fn walk_result(self, dir: Seq<char>) -> (GameView, Seq<char>) {
        match matching_edge(self.current_edges(), dir) {
            Some(e) => {
                let moved = GameView { location: e.0, ..self };
                (moved, moved.look_text())
            },
            None => (self, "you cannot go that way."@),
        }
    }

    /// What `pickup` does: the new state and the returned string. Only an
    /// object lying at the player's location can be taken; taking it moves
    /// its holder entry to `Body` in place.
    pub open spec fn pickup_result(self, o: Object) -> (GameView, Seq<char>) {
        if objects_at_spec(self.object_locations, self.location).contains(o) {
            let i = assoc_index(self.object_locations, o);
            let taken = GameView {
                object_locations: self.object_locations.update(i, (o, Location::Body)),
                ..self
            };
            (taken, "you are now carrying the "@ + object_name(o) + "."@)
        } else {
            (self, "you cannot get that."@)
        }
    }
}

/// The first matching entry, found by scanning from the front: when `s[i]`
/// matches and nothing before it does, that entry is the one `assoc_find`
/// and `assoc_index` name.
pub proof fn lemma_assoc_find_at<K, V>(s: Seq<(K, V)>, key: K, i: int)
    requires
        0 <= i < s.len(),
        s[i].0 == key,
        forall|k: int| 0 <= k < i ==> (#[trigger] s[k]).0 != key,
    ensures
        assoc_find(s, key) == Some(s[i].1),
        assoc_index(s, key) == i,
    decreases i,
{
    if i > 0 {
        assert(forall|k: int| 0 <= k < s.drop_first().len() ==> s.drop_first()[k] == s[k + 1]);
        lemma_assoc_find_at(s.drop_first(), key, i - 1);
    }
}

/// The view of one location's edge list.
pub open spec fn edge_list_view(es: Seq<(Location, String)>) -> Seq<(Location, Seq<char>)> {
    es.map_values(|p: (Location, String)| (p.0, p.1@))
}

/// The game state: the player's location, the room descriptions, the path
/// lists and the object holders, all fixed at construction except for the
/// player's location (`walk`) and one object holder per `pickup`.
pub struct Game {
    location: Location,
    nodes: Vec<(Location, String)>,
    edges: Vec<(Location, Vec<(Location, String)>)>,
    object_locations: Vec<(Object, Location)>,
}

impl View for Game {
    type V = GameView;

    closed spec fn view(&self) -> GameView {
        GameView {
            location: self.location,
            nodes: self.nodes@.map_values(|p: (Location, String)| (p.0, p.1@)),
            edges: self.edges@.map_values(
                |e: (Location, Vec<(Location, String)>)| (e.0, edge_list_view(e.1@)),
            ),
            object_locations: self.object_locations@,
        }
    }
}

/// The sentence for one path edge: the label's second word is the path kind,
/// its first word the direction.
pub fn describe_path(edge: &(Location, String)) -> (r: String)
    requires
        wf_label(edge.1@),
    ensures
        r@ == path_sentence(edge.1@),
{
    let label: &str = edge.1.as_str();
    let a = skip_spaces(label, 0);
    proof {
        lemma_next_non_space(label@, 0);
    }
    let b = scan_token(label, a);
    let c = skip_spaces(label, b);
    let d = scan_token(label, c);
    let dir: &str = label.substring_char(a, b);
    let kind: &str = label.substring_char(c, d);
    let mut r = String::new();
    r.append("there is a ");
    r.append(kind);
    r.append(" going ");
    r.append(dir);
    r.append(" from here.");
    proof {
        assert(r@ =~= path_sentence(edge.1@));
    }
    r
}

impl Game {
    /// The room description of the player's location.
    pub fn describe_location(&self) -> (r: String)
        requires
            self@.wf(),
        ensures
            r@ == self@.location_text(),
    {
        let n = self.nodes.len();
        let mut i: usize = 0;
        while i < n
            invariant
                self@.wf(),
                i <= n,
                n == self.nodes.len(),
                forall|k: int| 0 <= k < i ==> (#[trigger] self.nodes@[k]).0 != self.location,
            decreases n - i,
        {
            if self.nodes[i].0 == self.location {
                proof {
                    lemma_assoc_find_at(self@.nodes, self@.location, i as int);
                }
                return self.nodes[i].1.clone();
            }
            i = i + 1;
        }
        proof {
            let w = choose|k: int|
                0 <= k < self@.nodes.len() && (#[trigger] self@.nodes[k]).0 == self@.location;
            assert(self.nodes@[w].0 == self.location);
            assert(false);
        }
        String::new()
    }

    /// The edge list of the player's location, together with the facts that
    /// connect it to the view.
    fn current_edge_vec(&self) -> (es: &Vec<(Location, String)>)
        requires
            self@.wf(),
        ensures
            edge_list_view(es@) == self@.current_edges(),
            forall|j: int|
                0 <= j < es@.len() ==> self@.wf_edge(#[trigger] edge_list_view(es@)[j]),
    {
        let n = self.edges.len();
        let mut i: usize = 0;
        while i < n
            invariant
                self@.wf(),
                i <= n,
                n == self.edges.len(),
                forall|k: int| 0 <= k < i ==> (#[trigger] self.edges@[k]).0 != self.location,
            decreases n - i,
        {
            if self.edges[i].0 == self.location {
                proof {
                    lemma_assoc_find_at(self@.edges, self@.location, i as int);
                    let es_v = edge_list_view(self.edges@[i as int].1@);
                    assert(self@.edges[i as int].1 == es_v);
                    assert forall|j: int| 0 <= j < es_v.len() implies self@.wf_edge(
                        #[trigger] es_v[j],
                    ) by {
                        assert(self@.wf_edge(self@.edges[i as int].1[j]));
                    }
                }
                return &self.edges[i].1;
            }
            i = i + 1;
        }
        proof {
            let w = choose|k: int|
                0 <= k < self@.edges.len() && (#[trigger] self@.edges[k]).0 == self@.location;
            assert(self.edges@[w].0 == self.location);
            assert(false);
        }
        &self.edges[0].1
    }

    /// One sentence per outgoing path of the player's location, joined with
    /// single spaces in the edge list's order.
    pub fn describe_paths(&self) -> (r: String)
        requires
            self@.wf(),
        ensures
            r@ == paths_text(self@.current_edges()),
    {
        let es = self.current_edge_vec();
        let ghost es_v = self@.current_edges();
        let n = es.len();
        let mut r = String::new();
        let mut i: usize = 0;
        while i < n
            invariant
                i <= n,
                n == es@.len(),
                edge_list_view(es@) == es_v,
                forall|j: int| 0 <= j < es@.len() ==> self@.wf_edge(#[trigger] edge_list_view(es@)[j]),
                r@ == paths_text(es_v.subrange(0, i as int)),
            decreases n - i,
        {
            if i > 0 {
                r.append(" ");
            }
            proof {
                assert(self@.wf_edge(edge_list_view(es@)[i as int]));
                assert(edge_list_view(es@)[i as int].1 == es@[i as int].1@);
            }
            let s = describe_path(&es[i]);
            r.append(s.as_str());
            proof {
                let pre = es_v.subrange(0, i as int);
                let post = es_v.subrange(0, i + 1);
                assert(post.drop_last() =~= pre);
                assert(post.last() == es_v[i as int]);
                assert(es_v[i as int].1 == es@[i as int].1@);
                if i == 0 {
                    assert(r@ =~= paths_text(post));
                } else {
                    assert(r@ =~= paths_text(post));
                }
            }
            i = i + 1;
        }
        proof {
            assert(es_v.subrange(0, n as int) =~= es_v);
        }
        r
    }
}

/// An object is listed at `l` exactly when some entry holds it there.
pub proof fn lemma_objects_at_iff(s: Seq<(Object, Location)>, l: Location, o: Object)
    ensures
        objects_at_spec(s, l).contains(o) <==> exists|i: int|
            0 <= i < s.len() && #[trigger] s[i] == (o, l),
    decreases s.len(),
{
    if s.len() > 0 {
        lemma_objects_at_iff(s.drop_last(), l, o);
        let r = objects_at_spec(s.drop_last(), l);
        let full = objects_at_spec(s, l);
        if s.last().1 == l {
            assert(full == r.push(s.last().0));
            if full.contains(o) {
                let w = choose|w: int| 0 <= w < full.len() && full[w] == o;
                if w < r.len() {
                    assert(r[w] == o);
                    let v = choose|i: int|
                        0 <= i < s.drop_last().len() && #[trigger] s.drop_last()[i] == (o, l);
                    assert(s[v] == (o, l));
                } else {
                    assert(s[s.len() - 1] == (o, l));
                }
            }
            if exists|i: int| 0 <= i < s.len() && #[trigger] s[i] == (o, l) {
                let v = choose|i: int| 0 <= i < s.len() && #[trigger] s[i] == (o, l);
                if v < s.len() - 1 {
                    assert(s.drop_last()[v] == (o, l));
                    let w = choose|w: int| 0 <= w < r.len() && r[w] == o;
                    assert(full[w] == o);
                } else {
                    assert(full[full.len() - 1] == o);
                }
            }
        } else {
            assert(full == r);
            if full.contains(o) {
                let v = choose|i: int|
                    0 <= i < s.drop_last().len() && #[trigger] s.drop_last()[i] == (o, l);
                assert(s[v] == (o, l));
            }
            if exists|i: int| 0 <= i < s.len() && #[trigger] s[i] == (o, l) {
                let v = choose|i: int| 0 <= i < s.len() && #[trigger] s[i] == (o, l);
                assert(v < s.len() - 1);
                assert(s.drop_last()[v] == (o, l));
            }
        }
    }
}

/// With unique holder keys, no object is listed twice at one place.
pub proof fn lemma_objects_at_no_dup(s: Seq<(Object, Location)>, l: Location)
    requires
        forall|i: int, j: int| 0 <= i < j < s.len() ==> (#[trigger] s[i]).0 != (#[trigger] s[j]).0,
    ensures
        objects_at_spec(s, l).no_duplicates(),
    decreases s.len(),
{
    if s.len() > 0 {
        lemma_objects_at_no_dup(s.drop_last(), l);
        let r = objects_at_spec(s.drop_last(), l);
        if s.last().1 == l {
            assert(!r.contains(s.last().0)) by {
                if r.contains(s.last().0) {
                    lemma_objects_at_iff(s.drop_last(), l, s.last().0);
                    let v = choose|i: int|
                        0 <= i < s.drop_last().len() && #[trigger] s.drop_last()[i] == (
                        s.last().0,
                        l,
                        );
                    assert(s[v].0 == s[s.len() - 1].0);
                }
            }
            assert(objects_at_spec(s, l).no_duplicates()) by {
                let full = r.push(s.last().0);
                assert forall|i: int, j: int|
                    0 <= i < full.len() && 0 <= j < full.len() && i != j implies full[i]
                    != full[j] by {
                    if i < r.len() && j < r.len() {
                        assert(r[i] == full[i] && r[j] == full[j]);
                    } else if i < r.len() {
                        assert(r.contains(r[i]));
                    } else if j < r.len() {
                        assert(r.contains(r[j]));
                    }
                }
            }
        }
    }
}

/// The first edge whose label contains `dir`, found by a scan from the front.
pub proof fn lemma_matching_edge_at(es: Seq<(Location, Seq<char>)>, dir: Seq<char>, i: int)
    requires
        0 <= i < es.len(),
        contains_seq(es[i].1, dir),
        forall|k: int| 0 <= k < i ==> !contains_seq((#[trigger] es[k]).1, dir),
    ensures
        matching_edge(es, dir) == Some(es[i]),
    decreases i,
{
    if i > 0 {
        assert(forall|k: int| 0 <= k < es.drop_first().len() ==> es.drop_first()[k] == es[k + 1]);
        lemma_matching_edge_at(es.drop_first(), dir, i - 1);
    }
}

/// When no label contains `dir`, no edge matches.
pub proof fn lemma_matching_edge_none(es: Seq<(Location, Seq<char>)>, dir: Seq<char>)
    requires
        forall|k: int| 0 <= k < es.len() ==> !contains_seq((#[trigger] es[k]).1, dir),
    ensures
        matching_edge(es, dir) is None,
    decreases es.len(),
{
    if es.len() > 0 {
        assert(forall|k: int| 0 <= k < es.drop_first().len() ==> es.drop_first()[k] == es[k + 1]);
        lemma_matching_edge_none(es.drop_first(), dir);
    }
}

/// A matching edge is an element of the list.
pub proof fn lemma_matching_edge_member(es: Seq<(Location, Seq<char>)>, dir: Seq<char>)
    requires
        matching_edge(es, dir) is Some,
    ensures
        exists|j: int| 0 <= j < es.len() && #[trigger] es[j] == matching_edge(es, dir).unwrap(),
    decreases es.len(),
{
    if es.len() > 0 && !contains_seq(es[0].1, dir) {
        lemma_matching_edge_member(es.drop_first(), dir);
        let w = choose|j: int|
            0 <= j < es.drop_first().len() && #[trigger] es.drop_first()[j] == matching_edge(
                es.drop_first(),
                dir,
            ).unwrap();
        assert(es[w + 1] == matching_edge(es, dir).unwrap());
    }
}

impl Object {
    /// The object named by the canonical lowercase string, if any.
    pub fn from_str(s: &str) -> (r: Option<Object>)
        ensures
            r == object_of_name(s@),
    {
        if crate::text::str_eq(s, "whiskey") {
            Some(Object::Whiskey)
        } else if crate::text::str_eq(s, "bucket") {
            Some(Object::Bucket)
        } else if crate::text::str_eq(s, "frog") {
            Some(Object::Frog)
        } else if crate::text::str_eq(s, "chain") {
            Some(Object::Chain)
        } else {
            None
        }
    }

    /// The display name, as it appears in descriptions and the inventory.
    pub fn name(&self) -> (r: &'static str)
        ensures
            r@ == object_name(*self),
    {
        match self {
            Object::Whiskey => "Whiskey",
            Object::Bucket => "Bucket",
            Object::Frog => "Frog",
            Object::Chain => "Chain",
        }
    }
}

fn find_object_entry(olocs: &Vec<(Object, Location)>, o: Object) -> (r: Option<usize>)
    ensures
        match r {
            Some(i) => {
                &&& i < olocs@.len()
                &&& olocs@[i as int].0 == o
                &&& assoc_index(olocs@, o) == i
            },
            None => !assoc_has(olocs@, o),
        },
{
    let n = olocs.len();
    let mut i: usize = 0;
    while i < n
        invariant
            i <= n,
            n == olocs@.len(),
            forall|k: int| 0 <= k < i ==> (#[trigger] olocs@[k]).0 != o,
        decreases n - i,
    {
        if olocs[i].0 == o {
            proof {
                lemma_assoc_find_at(olocs@, o, i as int);
            }
            return Some(i);
        }
        i = i + 1;
    }
    None
}

fn vec_contains_object(os: &Vec<Object>, o: Object) -> (r: bool)
    ensures
        r == os@.contains(o),
{
    let n = os.len();
    let mut i: usize = 0;
    while i < n
        invariant
            i <= n,
            n == os@.len(),
            forall|k: int| 0 <= k < i ==> os@[k] != o,
        decreases n - i,
    {
        if os[i] == o {
            return true;
        }
        i = i + 1;
    }
    false
}

fn find_edge_target(es: &Vec<(Location, String)>, direction: &str) -> (r: Option<Location>)
    ensures
        match matching_edge(edge_list_view(es@), direction@) {
            Some(e) => r == Some(e.0),
            None => r is None,
        },
{
    let n = es.len();
    let mut i: usize = 0;
    while i < n
        invariant
            i <= n,
            n == es@.len(),
            forall|k: int|
                0 <= k < i ==> !contains_seq((#[trigger] edge_list_view(es@)[k]).1, direction@),
        decreases n - i,
    {
        if str_contains(es[i].1.as_str(), direction) {
            proof {
                assert(edge_list_view(es@)[i as int].1 == es@[i as int].1@);
                lemma_matching_edge_at(edge_list_view(es@), direction@, i as int);
            }
            return Some(es[i].0);
        }
        proof {
            assert(edge_list_view(es@)[i as int].1 == es@[i as int].1@);
        }
        i = i + 1;
    }
    proof {
        lemma_matching_edge_none(edge_list_view(es@), direction@);
    }
    None
}

impl Game {
    /// The objects lying at `location`, in holder-entry order.
    pub fn objects_at(&self, location: &Location) -> (r: Vec<Object>)
        ensures
            r@ == objects_at_spec(self@.object_locations, *location),
    {
        let mut r: Vec<Object> = Vec::new();
        let n = self.object_locations.len();
        let mut i: usize = 0;
        while i < n
            invariant
                i <= n,
                n == self.object_locations@.len(),
                r@ == objects_at_spec(self.object_locations@.subrange(0, i as int), *location),
            decreases n - i,
        {
            proof {
                let pre = self.object_locations@.subrange(0, i as int);
                let post = self.object_locations@.subrange(0, i + 1);
                assert(post.drop_last() =~= pre);
                assert(post.last() == self.object_locations@[i as int]);
            }
            if self.object_locations[i].1 == *location {
                r.push(self.object_locations[i].0);
            }
            i = i + 1;
        }
        proof {
            assert(self.object_locations@.subrange(0, n as int) =~= self.object_locations@);
        }
        r
    }

    /// One sentence per object lying at the player's location, joined with
    /// single spaces.
    pub fn describe_objects(&self) -> (r: String)
        ensures
            r@ == objects_text(objects_at_spec(self@.object_locations, self@.location)),
    {
        let os = self.objects_at(&self.location);
        let n = os.len();
        let mut r = String::new();
        let mut i: usize = 0;
        while i < n
            invariant
                i <= n,
                n == os@.len(),
                r@ == objects_text(os@.subrange(0, i as int)),
            decreases n - i,
        {
            if i > 0 {
                r.append(" ");
            }
            r.append("you see a ");
            r.append(os[i].name());
            r.append(" on the floor.");
            proof {
                let pre = os@.subrange(0, i as int);
                let post = os@.subrange(0, i + 1);
                assert(post.drop_last() =~= pre);
                assert(post.last() == os@[i as int]);
                assert(r@ =~= objects_text(post));
            }
            i = i + 1;
        }
        proof {
            assert(os@.subrange(0, n as int) =~= os@);
        }
        r
    }

    /// The carried objects, as "items-" followed by a space and the display
    /// name of each.
    pub fn inventory(&self) -> (r: String)
        ensures
            r@ == self@.inventory_text(),
    {
        let os = self.objects_at(&Location::Body);
        let n = os.len();
        let mut r = String::new();
        r.append("items-");
        let mut i: usize = 0;
        while i < n
            invariant
                i <= n,
                n == os@.len(),
                r@ == "items-"@ + items_text(os@.subrange(0, i as int)),
            decreases n - i,
        {
            r.append(" ");
            r.append(os[i].name());
            proof {
                let pre = os@.subrange(0, i as int);
                let post = os@.subrange(0, i + 1);
                assert(post.drop_last() =~= pre);
                assert(post.last() == os@[i as int]);
                assert(r@ =~= "items-"@ + items_text(post));
            }
            i = i + 1;
        }
        proof {
            assert(os@.subrange(0, n as int) =~= os@);
            assert(items_text(os@.subrange(0, 0)) =~= Seq::<char>::empty());
        }
        r
    }

    /// The full description of the current situation: room, paths, and
    /// objects on the floor, joined by single spaces.
    pub fn look(&self) -> (r: String)
        requires
            self@.wf(),
        ensures
            r@ == self@.look_text(),
    {
        let mut r = self.describe_location();
        r.append(" ");
        let p = self.describe_paths();
        r.append(p.as_str());
        r.append(" ");
        let o = self.describe_objects();
        r.append(o.as_str());
        proof {
            assert(r@ =~= self@.look_text());
        }
        r
    }

    /// Follow the first outgoing path whose label contains `direction`; on
    /// success the player moves and the new place is described, otherwise the
    /// state is unchanged.
    pub fn walk(&mut self, direction: &str) -> (r: String)
        requires
            old(self)@.wf(),
        ensures
            final(self)@ == old(self)@.walk_result(direction@).0,
            r@ == old(self)@.walk_result(direction@).1,
            final(self)@.wf(),
    {
        let ghost es_v = self@.current_edges();
        let target = {
            let es = self.current_edge_vec();
            find_edge_target(es, direction)
        };
        match target {
            Some(loc) => {
                proof {
                    lemma_matching_edge_member(es_v, direction@);
                    let w = choose|j: int|
                        0 <= j < es_v.len() && #[trigger] es_v[j] == matching_edge(
                            es_v,
                            direction@,
                        ).unwrap();
                    assert(self@.wf_edge(es_v[w]));
                }
                self.location = loc;
                self.look()
            },
            None => {
                let mut r = String::new();
                r.append("you cannot go that way.");
                proof {
                    assert(r@ =~= "you cannot go that way."@);
                }
                r
            },
        }
    }

    /// Take `object` if it lies at the player's location; its holder becomes
    /// the player. Otherwise nothing changes.
    pub fn pickup(&mut self, object: Object) -> (r: String)
        requires
            old(self)@.wf(),
        ensures
            final(self)@ == old(self)@.pickup_result(object).0,
            r@ == old(self)@.pickup_result(object).1,
            final(self)@.wf(),
    {
        let os = self.objects_at(&self.location);
        if vec_contains_object(&os, object) {
            proof {
                lemma_objects_at_iff(self@.object_locations, self@.location, object);
            }
            match find_object_entry(&self.object_locations, object) {
                Some(i) => {
                    let ghost before = self@;
                    self.object_locations[i] = (object, Location::Body);
                    proof {
                        let after = self@;
                        assert(after.object_locations == before.object_locations.update(
                            i as int,
                            (object, Location::Body),
                        ));
                        assert(after == before.pickup_result(object).0);
                        assert(after.unique_objects()) by {
                            assert forall|a: int, b: int|
                                0 <= a < b < after.object_locations.len() implies (
                            #[trigger] after.object_locations[a]).0 != (
                            #[trigger] after.object_locations[b]).0 by {
                                assert(after.object_locations[a].0
                                    == before.object_locations[a].0);
                                assert(after.object_locations[b].0
                                    == before.object_locations[b].0);
                                assert(before.object_locations[a].0
                                    != before.object_locations[b].0);
                            }
                        }
                        assert(after.wf());
                    }
                    let mut r = String::new();
                    r.append("you are now carrying the ");
                    r.append(object.name());
                    r.append(".");
                    proof {
                        assert(r@ =~= old(self)@.pickup_result(object).1);
                    }
                    r
                },
                None => {
                    proof {
                        let w = choose|k: int|
                            0 <= k < self.object_locations@.len()
                                && #[trigger] self.object_locations@[k] == (
                            object,
                            self@.location,
                            );
                        assert(self.object_locations@[w].0 == object);
                        assert(false);
                    }
                    String::new()
                },
            }
        } else {
            let mut r = String::new();
            r.append("you cannot get that.");
            proof {
                assert(r@ =~= "you cannot get that."@);
            }
            r
        }
    }

    /// Build a game from explicit world data. The data must satisfy the
    /// well-formedness invariant [`GameView::wf`].
    pub fn with_world(
        location: Location,
        nodes: Vec<(Location, String)>,
        edges: Vec<(Location, Vec<(Location, String)>)>,
        object_locations: Vec<(Object, Location)>,
    ) -> (g: Game)
        requires
            (GameView {
                location,
                nodes: nodes@.map_values(|p: (Location, String)| (p.0, p.1@)),
                edges: edges@.map_values(
                    |e: (Location, Vec<(Location, String)>)| (e.0, edge_list_view(e.1@)),
                ),
                object_locations: object_locations@,
            }).wf(),
        ensures
            g@ == (GameView {
                location,
                nodes: nodes@.map_values(|p: (Location, String)| (p.0, p.1@)),
                edges: edges@.map_values(
                    |e: (Location, Vec<(Location, String)>)| (e.0, edge_list_view(e.1@)),
                ),
                object_locations: object_locations@,
            }),
            g@.wf(),
    {
        Game { location, nodes, edges, object_locations }
    }
}

} // verus!
