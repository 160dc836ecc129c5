use vstd::prelude::*;

verus! {

/// Number of namespace separators (`:`) in `s`.
pub open spec fn separator_count(s: Seq<char>) -> nat
    decreases s.len(),
{
    if s.len() == 0 {
        0
    } else {
        separator_count(s.drop_last()) + if s.last() == ':' { 1nat } else { 0nat }
    }
}

/// The text of an identifier parsed from `text` with `game` as ambient namespace,
/// when `text` holds at most one separator.
pub open spec fn qualified(text: Seq<char>, game: Seq<char>) -> Seq<char> {
    if separator_count(text) == 0 {
        game + seq![':'] + text
    } else {
        text
    }
}

/// A namespaced symbolic name, `namespace:name`.
#[derive(Debug, Clone, Eq, Hash, PartialOrd, Ord)]
pub struct Identifier {
    id: String,
}

impl View for Identifier {
    type V = Seq<char>;

    closed spec fn view(&self) -> Seq<char> {
        self.id@
    }
}

impl PartialEq for Identifier {
    fn eq(&self, o: &Identifier) -> (r: bool) {
        self.id == o.id
    }
}

impl vstd::std_specs::cmp::PartialEqSpecImpl for Identifier {
    open spec fn obeys_eq_spec() -> bool {
        true
    }

    open spec fn eq_spec(&self, o: &Identifier) -> bool {
        self@ == o@
    }
}

impl Identifier {
    /// Parses `id` as an identifier: a bare name is placed in the namespace
    /// `game`, a `namespace:name` pair is kept as it is, and a text with more
    /// than one separator is refused.
    pub fn parse(id: &str, game: &str) -> (r: Result<Identifier, String>)
        ensures
            separator_count(id@) <= 1 <==> r is Ok,
            r matches Ok(i) ==> i@ == qualified(id@, game@),
    {
        let n = id.unicode_len();
        let mut count: usize = 0;
        let mut i: usize = 0;
        while i < n
            invariant
                n == id@.len(),
                i <= n,
                count == separator_count(id@.subrange(0, i as int)),
                count <= i,
            decreases n - i,
        {
            assert(id@.subrange(0, i as int + 1).drop_last() =~= id@.subrange(0, i as int));
            if id.get_char(i) == ':' {
                count = count + 1;
            }
            i = i + 1;
        }
        assert(id@.subrange(0, n as int) =~= id@);
        proof {
            reveal_strlit(":");
        }
        if count == 0 {
            let mut s = String::from_str(game);
            s.append(":");
            s.append(id);
            Ok(Identifier { id: s })
        } else if count == 1 {
            Ok(Identifier { id: String::from_str(id) })
        } else {
            let mut msg = String::from_str("Bad identifier ");
            msg.append(id);
            msg.append("!");
            Err(msg)
        }
    }

    /// The identifier's text.
    pub fn as_str(&self) -> (r: &str)
        ensures
            r@ == self@,
    {
        self.id.as_str()
    }
}


/// A piece type: an opaque value identified by its name.
#[derive(Debug, Clone, Eq, Hash, PartialOrd, Ord)]
pub struct DataNode {
    name: Identifier,
}

impl View for DataNode {
    type V = Seq<char>;

    closed spec fn view(&self) -> Seq<char> {
        self.name@
    }
}

impl PartialEq for DataNode {
    fn eq(&self, o: &DataNode) -> (r: bool) {
        self.name == o.name
    }
}

impl vstd::std_specs::cmp::PartialEqSpecImpl for DataNode {
    open spec fn obeys_eq_spec() -> bool {
        true
    }

    open spec fn eq_spec(&self, o: &DataNode) -> bool {
        self@ == o@
    }
}

impl DataNode {
    /// The piece type named `name`.
    pub fn new(name: Identifier) -> (r: DataNode)
        ensures
            r@ == name@,
    {
        DataNode { name }
    }

    /// The name of this piece type.
    pub fn name(&self) -> (r: &Identifier)
        ensures
            r@ == self@,
    {
        &self.name
    }

    /// An identical copy of this piece type.
    pub fn copy(&self) -> (r: DataNode)
        ensures
            r == *self,
            r@ == self@,
    {
        DataNode { name: Identifier { id: self.name.id.clone() } }
    }
}

/// A copy of `v`, element for element.
pub fn copy_nodes(v: &Vec<DataNode>) -> (r: Vec<DataNode>)
    ensures
        r@ == v@,
{
    let mut r: Vec<DataNode> = Vec::new();
    let mut i: usize = 0;
    while i < v.len()
        invariant
            i <= v.len(),
            r@ == v@.subrange(0, i as int),
        decreases v.len() - i,
    {
        r.push(v[i].copy());
        i = i + 1;
    }
    assert(r@ =~= v@);
    r
}

/// A cell of the hexagonal board, in axial coordinates.
#[derive(Clone, Copy, Debug, PartialEq, Eq, Structural, Hash)]
pub struct Coord {
    pub x: i32,
    pub y: i32,
}

/// The coordinates of `c` and its neighbours fit in `i32`.
pub open spec fn coord_in_range(c: Coord) -> bool {
    i32::MIN < c.x < i32::MAX && i32::MIN < c.y < i32::MAX
}

/// The cell `dx, dy` away from `c`.
pub open spec fn offset(c: Coord, dx: int, dy: int) -> Coord {
    Coord { x: (c.x + dx) as i32, y: (c.y + dy) as i32 }
}

/// The six neighbours of `c`, in the fixed direction order of the hex geometry.
pub open spec fn neighbors_of(c: Coord) -> Seq<Coord> {
    seq![
        offset(c, 0, 1),
        offset(c, 1, 0),
        offset(c, 1, -1),
        offset(c, 0, -1),
        offset(c, -1, 0),
        offset(c, -1, 1),
    ]
}

/// Relies on hex2d::Coordinate::neighbors: the six adjacent cells, in its
/// direction order YZ, XZ, XY, ZY, ZX, YX.
#[verifier::external_body]
pub(crate) fn hex_neighbors(c: Coord) -> (r: Vec<Coord>)
    requires
        coord_in_range(c),
    ensures
        r@ == neighbors_of(c),
{
    hex2d::Coordinate::new(c.x, c.y).neighbors().iter().map(|n| Coord { x: n.x, y: n.y }).collect()
}

/// The first piece type named `id` in `s`.
pub open spec fn find_node(s: Seq<DataNode>, id: Seq<char>) -> Option<DataNode>
    decreases s.len(),
{
    if s.len() == 0 {
        None
    } else if s[0]@ == id {
        Some(s[0])
    } else {
        find_node(s.drop_first(), id)
    }
}

/// The node that `find_node` returns carries the name looked up.
pub proof fn lemma_find_node(s: Seq<DataNode>, id: Seq<char>)
    ensures
        find_node(s, id) matches Some(n) ==> n@ == id,
    decreases s.len(),
{
    if s.len() > 0 && s[0]@ != id {
        lemma_find_node(s.drop_first(), id);
    }
}

/// The value of the first entry whose key reads `key` in `s`.
pub open spec fn assoc<K: View<V = Seq<char>>, V>(s: Seq<(K, V)>, key: Seq<char>) -> Option<V>
    decreases s.len(),
{
    if s.len() == 0 {
        None
    } else if s[0].0@ == key {
        Some(s[0].1)
    } else {
        assoc(s.drop_first(), key)
    }
}

/// The content of the first entry for cell `c` in `s`.
pub open spec fn cell_of(s: Seq<(Coord, Option<DataNode>)>, c: Coord) -> Option<Option<DataNode>>
    decreases s.len(),
{
    if s.len() == 0 {
        None
    } else if s[0].0 == c {
        Some(s[0].1)
    } else {
        cell_of(s.drop_first(), c)
    }
}

/// The registry of a game: its piece types, tags, value mappings and board.
/// Later registrations under a name take precedence over earlier ones.
pub struct DataGame {
    id: String,
    nodes: Vec<DataNode>,
    tags: Vec<(String, Vec<DataNode>)>,
    mappings: Vec<(String, Vec<(DataNode, DataNode)>)>,
    board: Vec<(Coord, Option<DataNode>)>,
}

impl DataGame {
    /// The ambient namespace of the game.
    pub closed spec fn spec_id(&self) -> Seq<char> {
        self.id@
    }

    /// The piece type registered under `id`.
    pub closed spec fn node_of(&self, id: Seq<char>) -> Option<DataNode> {
        find_node(self.nodes@, id)
    }

    /// The members of the tag `name`.
    pub closed spec fn tag_of(&self, name: Seq<char>) -> Option<Vec<DataNode>> {
        assoc(self.tags@, name)
    }

    /// The table of the value mapping `name`.
    pub closed spec fn mapping_of(&self, name: Seq<char>) -> Option<Vec<(DataNode, DataNode)>> {
        assoc(self.mappings@, name)
    }

    /// What the board holds at `c`: `None` off the board, `Some(None)` on an empty cell.
    pub closed spec fn cell(&self, c: Coord) -> Option<Option<DataNode>> {
        cell_of(self.board@, c)
    }

    /// The piece at `c`, if the cell is on the board and occupied.
    pub open spec fn piece_at(&self, c: Coord) -> Option<DataNode> {
        match self.cell(c) {
            Some(Some(n)) => Some(n),
            _ => None,
        }
    }

    /// An empty game whose ambient namespace is `id`.
    pub fn new(id: &str) -> (r: DataGame)
        ensures
            r.spec_id() == id@,
            forall|n: Seq<char>| r.node_of(n) is None,
            forall|n: Seq<char>| r.tag_of(n) is None,
            forall|n: Seq<char>| r.mapping_of(n) is None,
            forall|c: Coord| r.cell(c) is None,
    {
        DataGame {
            id: String::from_str(id),
            nodes: Vec::new(),
            tags: Vec::new(),
            mappings: Vec::new(),
            board: Vec::new(),
        }
    }

    /// The ambient namespace of the game.
    pub fn id(&self) -> (r: &str)
        ensures
            r@ == self.spec_id(),
    {
        self.id.as_str()
    }

    /// Registers the piece type `node` under its name.
    pub fn add_node(&mut self, node: DataNode)
        ensures
            final(self).spec_id() == old(self).spec_id(),
            final(self).node_of(node@) == Some(node),
            forall|n: Seq<char>| n != node@ ==> final(self).node_of(n) == old(self).node_of(n),
            forall|n: Seq<char>| final(self).tag_of(n) == old(self).tag_of(n),
            forall|n: Seq<char>| final(self).mapping_of(n) == old(self).mapping_of(n),
            forall|c: Coord| final(self).cell(c) == old(self).cell(c),
    {
        self.nodes.insert(0, node);
        assert(self.nodes@.drop_first() =~= old(self).nodes@);
    }

    /// Registers the tag `name` with the given members.
    pub fn add_tag(&mut self, name: &str, members: Vec<DataNode>)
        ensures
            final(self).spec_id() == old(self).spec_id(),
            final(self).tag_of(name@) == Some(members),
            forall|n: Seq<char>| n != name@ ==> final(self).tag_of(n) == old(self).tag_of(n),
            forall|n: Seq<char>| final(self).node_of(n) == old(self).node_of(n),
            forall|n: Seq<char>| final(self).mapping_of(n) == old(self).mapping_of(n),
            forall|c: Coord| final(self).cell(c) == old(self).cell(c),
    {
        self.tags.insert(0, (String::from_str(name), members));
        assert(self.tags@.drop_first() =~= old(self).tags@);
    }

    /// Registers the value mapping `name` with the given key, value pairs.
    pub fn add_mapping(&mut self, name: &str, table: Vec<(DataNode, DataNode)>)
        ensures
            final(self).spec_id() == old(self).spec_id(),
            final(self).mapping_of(name@) == Some(table),
            forall|n: Seq<char>| n != name@ ==> final(self).mapping_of(n) == old(self).mapping_of(n),
            forall|n: Seq<char>| final(self).node_of(n) == old(self).node_of(n),
            forall|n: Seq<char>| final(self).tag_of(n) == old(self).tag_of(n),
            forall|c: Coord| final(self).cell(c) == old(self).cell(c),
    {
        self.mappings.insert(0, (String::from_str(name), table));
        assert(self.mappings@.drop_first() =~= old(self).mappings@);
    }

    /// Puts the cell `coord` on the board, holding `node`.
    pub fn set_node(&mut self, coord: Coord, node: Option<DataNode>)
        ensures
            final(self).spec_id() == old(self).spec_id(),
            final(self).cell(coord) == Some(node),
            forall|c: Coord| c != coord ==> final(self).cell(c) == old(self).cell(c),
            forall|n: Seq<char>| final(self).node_of(n) == old(self).node_of(n),
            forall|n: Seq<char>| final(self).tag_of(n) == old(self).tag_of(n),
            forall|n: Seq<char>| final(self).mapping_of(n) == old(self).mapping_of(n),
    {
        self.board.insert(0, (coord, node));
        assert(self.board@.drop_first() =~= old(self).board@);
    }

    /// The piece type registered under `id`.
    pub fn lookup_node(&self, id: &Identifier) -> (r: Option<DataNode>)
        ensures
            r == self.node_of(id@),
            r matches Some(n) ==> n@ == id@,
    {
        proof {
            lemma_find_node(self.nodes@, id@);
        }
        let mut i: usize = 0;
        assert(self.nodes@.subrange(0, self.nodes@.len() as int) =~= self.nodes@);
        while i < self.nodes.len()
            invariant
                i <= self.nodes@.len(),
                find_node(self.nodes@, id@) == find_node(self.nodes@.subrange(i as int, self.nodes@.len() as int), id@),
            decreases self.nodes.len() - i,
        {
            assert(self.nodes@.subrange(i as int, self.nodes@.len() as int).drop_first()
                =~= self.nodes@.subrange(i as int + 1, self.nodes@.len() as int));
            if self.nodes[i].name == *id {
                return Some(self.nodes[i].copy());
            }
            i = i + 1;
        }
        None
    }

    /// The members of the tag `name`.
    pub fn lookup_tag(&self, name: &str) -> (r: Option<Vec<DataNode>>)
        ensures
            match (r, self.tag_of(name@)) {
                (Some(v), Some(w)) => v@ == w@,
                (None, None) => true,
                _ => false,
            },
    {
        let key = String::from_str(name);
        let mut i: usize = 0;
        assert(self.tags@.subrange(0, self.tags@.len() as int) =~= self.tags@);
        while i < self.tags.len()
            invariant
                i <= self.tags@.len(),
                key@ == name@,
                assoc(self.tags@, name@) == assoc(self.tags@.subrange(i as int, self.tags@.len() as int), name@),
            decreases self.tags.len() - i,
        {
            assert(self.tags@.subrange(i as int, self.tags@.len() as int).drop_first()
                =~= self.tags@.subrange(i as int + 1, self.tags@.len() as int));
            if self.tags[i].0 == key {
                return Some(copy_nodes(&self.tags[i].1));
            }
            i = i + 1;
        }
        None
    }

    /// The table of the value mapping `name`.
    pub fn lookup_mapping(&self, name: &str) -> (r: Option<Vec<(DataNode, DataNode)>>)
        ensures
            match (r, self.mapping_of(name@)) {
                (Some(v), Some(w)) => v@ == w@,
                (None, None) => true,
                _ => false,
            },
    {
        let key = String::from_str(name);
        let mut i: usize = 0;
        assert(self.mappings@.subrange(0, self.mappings@.len() as int) =~= self.mappings@);
        while i < self.mappings.len()
            invariant
                i <= self.mappings@.len(),
                key@ == name@,
                assoc(self.mappings@, name@) == assoc(
                    self.mappings@.subrange(i as int, self.mappings@.len() as int),
                    name@,
                ),
            decreases self.mappings.len() - i,
        {
            assert(self.mappings@.subrange(i as int, self.mappings@.len() as int).drop_first()
                =~= self.mappings@.subrange(i as int + 1, self.mappings@.len() as int));
            if self.mappings[i].0 == key {
                let t = &self.mappings[i].1;
                let mut r: Vec<(DataNode, DataNode)> = Vec::new();
                let mut k: usize = 0;
                while k < t.len()
                    invariant
                        k <= t@.len(),
                        r@ == t@.subrange(0, k as int),
                    decreases t.len() - k,
                {
                    r.push((t[k].0.copy(), t[k].1.copy()));
                    k = k + 1;
                }
                assert(r@ =~= t@);
                return Some(r);
            }
            i = i + 1;
        }
        None
    }

    /// The piece at `coord`, if that cell is on the board and occupied.
    pub fn get_node(&self, coord: Coord) -> (r: Option<&DataNode>)
        ensures
            match r {
                Some(n) => self.piece_at(coord) == Some(*n),
                None => self.piece_at(coord) is None,
            },
    {
        let mut i: usize = 0;
        assert(self.board@.subrange(0, self.board@.len() as int) =~= self.board@);
        while i < self.board.len()
            invariant
                i <= self.board@.len(),
                cell_of(self.board@, coord) == cell_of(
                    self.board@.subrange(i as int, self.board@.len() as int),
                    coord,
                ),
            decreases self.board.len() - i,
        {
            assert(self.board@.subrange(i as int, self.board@.len() as int).drop_first()
                =~= self.board@.subrange(i as int + 1, self.board@.len() as int));
            if self.board[i].0 == coord {
                return self.board[i].1.as_ref();
            }
            i = i + 1;
        }
        None
    }
}

} // verus!
