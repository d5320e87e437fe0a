//! Importer for ASCII Gmsh `.msh` (version 2 style) meshes with triangle
//! (type 2) and quadrilateral (type 3) elements.
//!
//! The importer works on the text in the way the format lays it out: the node
//! section, then the element section, line by line. It reports the node
//! coordinates as the tokens that the file holds; turning them into numbers is
//! left to the numerical layer, which checks them in file order before it looks
//! at the outcome of the scan, so that the first fault in the file is the one
//! reported.

use vstd::prelude::*;

use crate::gmrf_fem::errors::FemError;
use crate::gmrf_fem::mesh::ElementConnectivity;
use crate::gmrf_fem::text::{
    chars_of, lines_from, parse_i32, parse_i32_token, parse_usize, parse_usize_token, read_line,
    split_tokens, split_whitespace, str_lines, token_views, trim, trim_bounds,
};

verus! {

/// The ways in which a Gmsh text can fail to describe a mesh.
#[derive(Debug, Clone, Copy, PartialEq, Eq, Structural)]
pub enum GmshFault {
    MissingNodeCount,
    InvalidNodeCount,
    UnexpectedEndOfNodes,
    InvalidNodeRecord,
    InvalidNodeCoordinate,
    MissingEndNodes,
    MissingElementCount,
    InvalidElementCount,
    UnexpectedEndOfElements,
    InvalidElementType,
    InvalidTagCount,
    TriangleMissingNodes,
    QuadrilateralMissingNodes,
    InvalidNodeIndex,
    NoNodesOrElements,
}

/// The message that a fault is reported with.
pub open spec fn fault_message(f: GmshFault) -> Seq<char> {
    match f {
        GmshFault::MissingNodeCount => "missing node count"@,
        GmshFault::InvalidNodeCount => "invalid node count"@,
        GmshFault::UnexpectedEndOfNodes => "unexpected end of nodes"@,
        GmshFault::InvalidNodeRecord => "invalid node record"@,
        GmshFault::InvalidNodeCoordinate => "invalid node coordinate"@,
        GmshFault::MissingEndNodes => "missing $EndNodes"@,
        GmshFault::MissingElementCount => "missing element count"@,
        GmshFault::InvalidElementCount => "invalid element count"@,
        GmshFault::UnexpectedEndOfElements => "unexpected end of elements"@,
        GmshFault::InvalidElementType => "invalid element type"@,
        GmshFault::InvalidTagCount => "invalid tag count"@,
        GmshFault::TriangleMissingNodes => "triangle missing nodes"@,
        GmshFault::QuadrilateralMissingNodes => "quadrilateral missing nodes"@,
        GmshFault::InvalidNodeIndex => "invalid node index"@,
        GmshFault::NoNodesOrElements => "no nodes or elements parsed"@,
    }
}

impl GmshFault {
    /// The message that the fault is reported with.
    pub fn message(&self) -> (m: &'static str)
        ensures
            m@ == fault_message(*self),
    {
        match self {
            GmshFault::MissingNodeCount => "missing node count",
            GmshFault::InvalidNodeCount => "invalid node count",
            GmshFault::UnexpectedEndOfNodes => "unexpected end of nodes",
            GmshFault::InvalidNodeRecord => "invalid node record",
            GmshFault::InvalidNodeCoordinate => "invalid node coordinate",
            GmshFault::MissingEndNodes => "missing $EndNodes",
            GmshFault::MissingElementCount => "missing element count",
            GmshFault::InvalidElementCount => "invalid element count",
            GmshFault::UnexpectedEndOfElements => "unexpected end of elements",
            GmshFault::InvalidElementType => "invalid element type",
            GmshFault::InvalidTagCount => "invalid tag count",
            GmshFault::TriangleMissingNodes => "triangle missing nodes",
            GmshFault::QuadrilateralMissingNodes => "quadrilateral missing nodes",
            GmshFault::InvalidNodeIndex => "invalid node index",
            GmshFault::NoNodesOrElements => "no nodes or elements parsed",
        }
    }

    /// The mesh error that reports the fault.
    pub fn into_error(self) -> (e: FemError)
        ensures
            e matches FemError::GmshParse(m) && m@ == fault_message(self),
    {
        FemError::GmshParse(self.message().to_owned())
    }
}

/// `$Nodes`
pub open spec fn nodes_marker() -> Seq<char> {
    seq!['$', 'N', 'o', 'd', 'e', 's']
}

/// `$EndNodes`
pub open spec fn end_nodes_marker() -> Seq<char> {
    seq!['$', 'E', 'n', 'd', 'N', 'o', 'd', 'e', 's']
}

/// `$Elements`
pub open spec fn elements_marker() -> Seq<char> {
    seq!['$', 'E', 'l', 'e', 'm', 'e', 'n', 't', 's']
}

/// Index of the first line at or after `from` whose trimmed text is `m`, or
/// `ls.len()` when there is none.
pub open spec fn find_marker(ls: Seq<Seq<char>>, from: int, m: Seq<char>) -> int
    decreases ls.len() - from,
{
    if from >= ls.len() {
        ls.len() as int
    } else if trim(ls[from]) == m {
        from
    } else {
        find_marker(ls, from + 1, m)
    }
}

/// Coordinate tokens of the node records that start at line `i`, `remaining`
/// of them, with the fault that stops them, if any. A record has at least four
/// tokens: its number, then `x`, `y` and `z`.
pub open spec fn node_records(ls: Seq<Seq<char>>, i: int, remaining: nat) -> (
    Seq<(Seq<char>, Seq<char>)>,
    Option<GmshFault>,
)
    decreases remaining,
{
    if remaining == 0 {
        (seq![], None)
    } else if i >= ls.len() {
        (seq![], Some(GmshFault::UnexpectedEndOfNodes))
    } else {
        let parts = split_whitespace(ls[i]);
        if parts.len() < 4 {
            (seq![], Some(GmshFault::InvalidNodeRecord))
        } else {
            let rest = node_records(ls, i + 1, (remaining - 1) as nat);
            (seq![(parts[1], parts[2])] + rest.0, rest.1)
        }
    }
}

/// The 0-based node index that a 1-based index of the file stands for; `0`,
/// which numbers no node, wraps to `usize::MAX`, an index that no mesh holds.
pub open spec fn from_one_based(p: usize) -> usize {
    if p == 0 {
        usize::MAX
    } else {
        (p - 1) as usize
    }
}

/// The node indices `parts[ns .. ns + k]` where all of them are integers.
pub open spec fn parse_indices(parts: Seq<Seq<char>>, ns: int, k: nat) -> Option<Seq<usize>> {
    if forall|j: int| 0 <= j < k ==> #[trigger] parse_usize(parts[ns + j]) is Some {
        Some(Seq::new(k, |j: int| from_one_based(parse_usize(parts[ns + j])->0)))
    } else {
        None
    }
}

/// What one element record contributes: an element, nothing (short records and
/// other element types are skipped), or a fault. The record is the element
/// number, the type, the tag count, the tags, then the node indices.
pub open spec fn record_element(parts: Seq<Seq<char>>) -> Result<
    Option<ElementConnectivity>,
    GmshFault,
> {
    if parts.len() < 5 {
        Ok(None)
    } else {
        match parse_i32(parts[1]) {
            None => Err(GmshFault::InvalidElementType),
            Some(t) => match parse_usize(parts[2]) {
                None => Err(GmshFault::InvalidTagCount),
                Some(tags) => {
                    let ns = 3 + tags;
                    if t == 2 {
                        if parts.len() < ns + 3 {
                            Err(GmshFault::TriangleMissingNodes)
                        } else {
                            match parse_indices(parts, ns, 3) {
                                None => Err(GmshFault::InvalidNodeIndex),
                                Some(ix) => Ok(
                                    Some(ElementConnectivity::Triangle([ix[0], ix[1], ix[2]])),
                                ),
                            }
                        }
                    } else if t == 3 {
                        if parts.len() < ns + 4 {
                            Err(GmshFault::QuadrilateralMissingNodes)
                        } else {
                            match parse_indices(parts, ns, 4) {
                                None => Err(GmshFault::InvalidNodeIndex),
                                Some(ix) => Ok(
                                    Some(
                                        ElementConnectivity::Quadrilateral(
                                            [ix[0], ix[1], ix[2], ix[3]],
                                        ),
                                    ),
                                ),
                            }
                        }
                    } else {
                        Ok(None)
                    }
                },
            },
        }
    }
}

/// Elements of the `remaining` element records that start at line `i`, with
/// the fault that stops them, if any.
pub open spec fn element_records(ls: Seq<Seq<char>>, i: int, remaining: nat) -> (
    Seq<ElementConnectivity>,
    Option<GmshFault>,
)
    decreases remaining,
{
    if remaining == 0 {
        (seq![], None)
    } else if i >= ls.len() {
        (seq![], Some(GmshFault::UnexpectedEndOfElements))
    } else {
        match record_element(split_whitespace(ls[i])) {
            Err(f) => (seq![], Some(f)),
            Ok(opt) => {
                let rest = element_records(ls, i + 1, (remaining - 1) as nat);
                match opt {
                    Some(e) => (seq![e] + rest.0, rest.1),
                    None => rest,
                }
            },
        }
    }
}

/// The node section: coordinate tokens, the line after the section, and the
/// fault, if any. Without a `$Nodes` line all lines are consumed.
pub open spec fn node_section(ls: Seq<Seq<char>>) -> (
    Seq<(Seq<char>, Seq<char>)>,
    int,
    Option<GmshFault>,
) {
    let k = find_marker(ls, 0, nodes_marker());
    if k >= ls.len() {
        (seq![], ls.len() as int, None)
    } else if k + 1 >= ls.len() {
        (seq![], ls.len() as int, Some(GmshFault::MissingNodeCount))
    } else {
        match parse_usize(trim(ls[k + 1])) {
            None => (seq![], k + 2, Some(GmshFault::InvalidNodeCount)),
            Some(c) => {
                let r = node_records(ls, k + 2, c as nat);
                let e = k + 2 + c;
                if r.1 is Some {
                    (r.0, e, r.1)
                } else if e >= ls.len() || trim(ls[e]) != end_nodes_marker() {
                    (r.0, e, Some(GmshFault::MissingEndNodes))
                } else {
                    (r.0, e + 1, None)
                }
            },
        }
    }
}

/// The element section, searched for from line `from` on: the elements and the
/// fault, if any.
pub open spec fn element_section(ls: Seq<Seq<char>>, from: int) -> (
    Seq<ElementConnectivity>,
    Option<GmshFault>,
) {
    let k = find_marker(ls, from, elements_marker());
    if k >= ls.len() {
        (seq![], None)
    } else if k + 1 >= ls.len() {
        (seq![], Some(GmshFault::MissingElementCount))
    } else {
        match parse_usize(trim(ls[k + 1])) {
            None => (seq![], Some(GmshFault::InvalidElementCount)),
            Some(c) => element_records(ls, k + 2, c as nat),
        }
    }
}

/// The scan of a whole text, given as its lines: the coordinate tokens of the
/// node records read, the elements read, and the first structural fault, if any.
pub open spec fn gmsh_scan(ls: Seq<Seq<char>>) -> (
    Seq<(Seq<char>, Seq<char>)>,
    Seq<ElementConnectivity>,
    Option<GmshFault>,
) {
    let n = node_section(ls);
    if n.2 is Some {
        (n.0, seq![], n.2)
    } else {
        let el = element_section(ls, n.1);
        if el.1 is Some {
            (n.0, el.0, el.1)
        } else if n.0.len() == 0 || el.0.len() == 0 {
            (n.0, el.0, Some(GmshFault::NoNodesOrElements))
        } else {
            (n.0, el.0, None)
        }
    }
}

/// The character sequences of coordinate token pairs.
pub open spec fn coordinate_views(v: Seq<(Vec<char>, Vec<char>)>) -> Seq<(Seq<char>, Seq<char>)> {
    v.map_values(|p: (Vec<char>, Vec<char>)| (p.0@, p.1@))
}

/// Result of scanning a Gmsh text.
pub struct GmshScan {
    /// The `x` and `y` tokens of each node record read, in file order.
    pub coordinates: Vec<(Vec<char>, Vec<char>)>,
    /// The triangle and quadrilateral elements read, in file order.
    pub elements: Vec<ElementConnectivity>,
    /// The first structural fault of the text, if any.
    pub fault: Option<GmshFault>,
}

impl GmshScan {
    /// The scan holds what `gmsh_scan` gives for the lines `ls`.
    pub open spec fn describes(&self, ls: Seq<Seq<char>>) -> bool {
        let g = gmsh_scan(ls);
        &&& coordinate_views(self.coordinates@) == g.0
        &&& self.elements@ == g.1
        &&& self.fault == g.2
    }
}

/// The cursor `pos` into `text` stands at line `li` of `ls`.
pub open spec fn cursor_at(text: Seq<char>, pos: int, ls: Seq<Seq<char>>, li: int) -> bool {
    &&& 0 <= li <= ls.len()
    &&& 0 <= pos <= text.len()
    &&& lines_from(text, pos) == ls.subrange(li, ls.len() as int)
}

/// Reads the line under the cursor.
fn next_line(text: &Vec<char>, pos: usize, Ghost(ls): Ghost<Seq<Seq<char>>>, Ghost(li): Ghost<int>) -> (r:
    Option<(Vec<char>, usize)>)
    requires
        cursor_at(text@, pos as int, ls, li),
    ensures
        r is None <==> li == ls.len(),
        r matches Some((line, next)) ==> {
            &&& li < ls.len()
            &&& line@ == ls[li]
            &&& cursor_at(text@, next as int, ls, li + 1)
        },
{
    let r = read_line(text, pos);
    proof {
        match &r {
            None => {
                assert(ls.subrange(li, ls.len() as int).len() == 0);
            },
            Some((line, next)) => {
                let tail = ls.subrange(li, ls.len() as int);
                assert(tail.len() > 0);
                assert(tail[0] == line@);
                assert(ls.subrange(li + 1, ls.len() as int) =~= tail.drop_first());
                assert(seq![line@] + lines_from(text@, next as int) == tail);
                assert((seq![line@] + lines_from(text@, next as int)).drop_first() =~= lines_from(
                    text@,
                    next as int,
                ));
            },
        }
    }
    r
}

/// The trimmed text of `line` is `marker`.
fn trimmed_is(line: &Vec<char>, marker: &Vec<char>) -> (b: bool)
    ensures
        b == (trim(line@) == marker@),
{
    let (s, e) = trim_bounds(line);
    if e - s != marker.len() {
        return false;
    }
    let mut k: usize = 0;
    while k < marker.len()
        invariant
            s <= e <= line.len(),
            e - s == marker.len(),
            trim(line@) == line@.subrange(s as int, e as int),
            k <= marker.len(),
            forall|j: int| 0 <= j < k ==> line@[s + j] == marker@[j],
        decreases marker.len() - k,
    {
        if line[s + k] != marker[k] {
            assert(trim(line@)[k as int] != marker@[k as int]);
            return false;
        }
        k = k + 1;
    }
    assert(trim(line@) =~= marker@);
    true
}

/// The integer that the trimmed text of `line` spells.
fn parse_trimmed_usize(line: &Vec<char>) -> (r: Option<usize>)
    ensures
        r == parse_usize(trim(line@)),
{
    let (s, e) = trim_bounds(line);
    let mut t: Vec<char> = Vec::new();
    let mut k = s;
    while k < e
        invariant
            s <= k <= e <= line.len(),
            t@ == line@.subrange(s as int, k as int),
        decreases e - k,
    {
        t.push(line[k]);
        k = k + 1;
        assert(t@ =~= line@.subrange(s as int, k as int));
    }
    parse_usize_token(&t)
}

/// Advances the cursor past the first line whose trimmed text is `marker`.
/// Returns whether one was found; when none was, all lines are consumed.
fn skip_to_marker(
    text: &Vec<char>,
    pos: usize,
    marker: &Vec<char>,
    Ghost(ls): Ghost<Seq<Seq<char>>>,
    Ghost(li): Ghost<int>,
) -> (r: (bool, usize, Ghost<int>))
    requires
        cursor_at(text@, pos as int, ls, li),
    ensures
        cursor_at(text@, r.1 as int, ls, r.2@),
        r.0 ==> find_marker(ls, li, marker@) == r.2@ - 1 && r.2@ - 1 < ls.len(),
        !r.0 ==> find_marker(ls, li, marker@) == ls.len() && r.2@ == ls.len(),
{
    let mut p = pos;
    let ghost mut l = li;
    loop
        invariant
            cursor_at(text@, p as int, ls, l),
            li <= l,
            find_marker(ls, li, marker@) == find_marker(ls, l, marker@),
        decreases ls.len() - l,
    {
        match next_line(text, p, Ghost(ls), Ghost(l)) {
            None => {
                return (false, p, Ghost(l));
            },
            Some((line, next)) => {
                if trimmed_is(&line, marker) {
                    return (true, next, Ghost(l + 1));
                }
                p = next;
                proof {
                    l = l + 1;
                }
            },
        }
    }
}

/// Clones a token.
fn copy_token(t: &Vec<char>) -> (r: Vec<char>)
    ensures
        r@ == t@,
{
    let mut r: Vec<char> = Vec::new();
    let mut k: usize = 0;
    while k < t.len()
        invariant
            k <= t.len(),
            r@ == t@.subrange(0, k as int),
        decreases t.len() - k,
    {
        r.push(t[k]);
        k = k + 1;
        assert(r@ =~= t@.subrange(0, k as int));
    }
    assert(r@ =~= t@);
    r
}

/// Reads `count` node records from the cursor on.
fn scan_node_records(
    text: &Vec<char>,
    pos: usize,
    count: usize,
    Ghost(ls): Ghost<Seq<Seq<char>>>,
    Ghost(li): Ghost<int>,
) -> (r: (Vec<(Vec<char>, Vec<char>)>, usize, Option<GmshFault>))
    requires
        cursor_at(text@, pos as int, ls, li),
    ensures
        coordinate_views(r.0@) == node_records(ls, li, count as nat).0,
        r.2 == node_records(ls, li, count as nat).1,
        r.2 is None ==> cursor_at(text@, r.1 as int, ls, li + count),
{
    let mut coords: Vec<(Vec<char>, Vec<char>)> = Vec::new();
    let mut done: usize = 0;
    let mut p = pos;
    let ghost mut l = li;
    while done < count
        invariant
            done <= count,
            l == li + done,
            cursor_at(text@, p as int, ls, l),
            node_records(ls, li, count as nat) == ({
                let rest = node_records(ls, l, (count - done) as nat);
                (coordinate_views(coords@) + rest.0, rest.1)
            }),
        decreases count - done,
    {
        match next_line(text, p, Ghost(ls), Ghost(l)) {
            None => {
                proof {
                    assert(coordinate_views(coords@) + Seq::<(Seq<char>, Seq<char>)>::empty()
                        =~= coordinate_views(coords@));
                }
                return (coords, p, Some(GmshFault::UnexpectedEndOfNodes));
            },
            Some((line, next)) => {
                let parts = split_tokens(&line);
                if parts.len() < 4 {
                    proof {
                        assert(token_views(parts@).len() == parts@.len());
                        assert(coordinate_views(coords@) + Seq::<(Seq<char>, Seq<char>)>::empty()
                            =~= coordinate_views(coords@));
                    }
                    return (coords, p, Some(GmshFault::InvalidNodeRecord));
                }
                let x = copy_token(&parts[1]);
                let y = copy_token(&parts[2]);
                let ghost before = coordinate_views(coords@);
                proof {
                    assert(token_views(parts@)[1] == parts@[1]@);
                    assert(token_views(parts@)[2] == parts@[2]@);
                    let rest = node_records(ls, l + 1, (count - done - 1) as nat);
                    assert(node_records(ls, l, (count - done) as nat) == (
                        seq![(x@, y@)] + rest.0,
                        rest.1,
                    ));
                }
                coords.push((x, y));
                proof {
                    assert(coordinate_views(coords@) =~= before.push((x@, y@)));
                    let rest = node_records(ls, l + 1, (count - done - 1) as nat);
                    assert(before + (seq![(x@, y@)] + rest.0) =~= coordinate_views(coords@)
                        + rest.0);
                    l = l + 1;
                }
                done = done + 1;
                p = next;
            },
        }
    }
    proof {
        assert(coordinate_views(coords@) + Seq::<(Seq<char>, Seq<char>)>::empty()
            =~= coordinate_views(coords@));
    }
    (coords, p, None)
}

/// Parses the node indices `parts[ns .. ns + k]`.
fn scan_indices(parts: &Vec<Vec<char>>, ns: usize, k: usize) -> (r: Option<Vec<usize>>)
    requires
        ns + k <= parts.len(),
    ensures
        r matches Some(v) ==> parse_indices(token_views(parts@), ns as int, k as nat) == Some(
            v@,
        ),
        r is None ==> parse_indices(token_views(parts@), ns as int, k as nat) is None,
{
    let ghost tv = token_views(parts@);
    let mut v: Vec<usize> = Vec::new();
    let mut j: usize = 0;
    while j < k
        invariant
            ns + k <= parts.len(),
            tv == token_views(parts@),
            j <= k,
            forall|m: int| 0 <= m < j ==> #[trigger] parse_usize(tv[ns + m]) is Some,
            v@ == Seq::new(j as nat, |m: int| from_one_based(parse_usize(tv[ns + m])->0)),
        decreases k - j,
    {
        assert(tv[ns + j] == parts@[ns + j]@);
        match parse_usize_token(&parts[ns + j]) {
            None => {
                assert(parse_usize(tv[ns + j as int]) is None);
                return None;
            },
            Some(p) => {
                let idx = if p == 0 { usize::MAX } else { p - 1 };
                v.push(idx);
                j = j + 1;
                assert(v@ =~= Seq::new(
                    j as nat,
                    |m: int| from_one_based(parse_usize(tv[ns + m])->0),
                ));
            },
        }
    }
    Some(v)
}

/// What one element record contributes.
fn scan_element_record(parts: &Vec<Vec<char>>) -> (r: Result<Option<ElementConnectivity>, GmshFault>)
    ensures
        r == record_element(token_views(parts@)),
{
    let ghost tv = token_views(parts@);
    if parts.len() < 5 {
        return Ok(None);
    }
    assert(tv[1] == parts@[1]@);
    assert(tv[2] == parts@[2]@);
    let elem_type = match parse_i32_token(&parts[1]) {
        None => {
            return Err(GmshFault::InvalidElementType);
        },
        Some(t) => t,
    };
    let num_tags = match parse_usize_token(&parts[2]) {
        None => {
            return Err(GmshFault::InvalidTagCount);
        },
        Some(t) => t,
    };
    if elem_type == 2 {
        if parts.len() < 6 || num_tags > parts.len() - 6 {
            return Err(GmshFault::TriangleMissingNodes);
        }
        let ns = 3 + num_tags;
        match scan_indices(parts, ns, 3) {
            None => Err(GmshFault::InvalidNodeIndex),
            Some(ix) => {
                assert(ix@.len() == 3);
                Ok(Some(ElementConnectivity::Triangle([ix[0], ix[1], ix[2]])))
            },
        }
    } else if elem_type == 3 {
        if parts.len() < 7 || num_tags > parts.len() - 7 {
            return Err(GmshFault::QuadrilateralMissingNodes);
        }
        let ns = 3 + num_tags;
        match scan_indices(parts, ns, 4) {
            None => Err(GmshFault::InvalidNodeIndex),
            Some(ix) => {
                assert(ix@.len() == 4);
                Ok(Some(ElementConnectivity::Quadrilateral([ix[0], ix[1], ix[2], ix[3]])))
            },
        }
    } else {
        Ok(None)
    }
}

/// Reads `count` element records from the cursor on.
fn scan_element_records(
    text: &Vec<char>,
    pos: usize,
    count: usize,
    Ghost(ls): Ghost<Seq<Seq<char>>>,
    Ghost(li): Ghost<int>,
) -> (r: (Vec<ElementConnectivity>, Option<GmshFault>))
    requires
        cursor_at(text@, pos as int, ls, li),
    ensures
        r.0@ == element_records(ls, li, count as nat).0,
        r.1 == element_records(ls, li, count as nat).1,
{
    let mut elements: Vec<ElementConnectivity> = Vec::new();
    let mut done: usize = 0;
    let mut p = pos;
    let ghost mut l = li;
    while done < count
        invariant
            done <= count,
            l == li + done,
            cursor_at(text@, p as int, ls, l),
            element_records(ls, li, count as nat) == ({
                let rest = element_records(ls, l, (count - done) as nat);
                (elements@ + rest.0, rest.1)
            }),
        decreases count - done,
    {
        match next_line(text, p, Ghost(ls), Ghost(l)) {
            None => {
                assert(elements@ + Seq::<ElementConnectivity>::empty() =~= elements@);
                return (elements, Some(GmshFault::UnexpectedEndOfElements));
            },
            Some((line, next)) => {
                let parts = split_tokens(&line);
                let ghost rest = element_records(ls, l + 1, (count - done - 1) as nat);
                match scan_element_record(&parts) {
                    Err(f) => {
                        assert(elements@ + Seq::<ElementConnectivity>::empty() =~= elements@);
                        return (elements, Some(f));
                    },
                    Ok(None) => {},
                    Ok(Some(e)) => {
                        let ghost before = elements@;
                        elements.push(e);
                        assert(before + (seq![e] + rest.0) =~= elements@ + rest.0);
                    },
                }
                proof {
                    l = l + 1;
                }
                done = done + 1;
                p = next;
            },
        }
    }
    assert(elements@ + Seq::<ElementConnectivity>::empty() =~= elements@);
    (elements, None)
}

fn nodes_marker_chars() -> (m: Vec<char>)
    ensures
        m@ == nodes_marker(),
{
    let m = vec!['$', 'N', 'o', 'd', 'e', 's'];
    assert(m@ =~= nodes_marker());
    m
}

fn end_nodes_marker_chars() -> (m: Vec<char>)
    ensures
        m@ == end_nodes_marker(),
{
    let m = vec!['$', 'E', 'n', 'd', 'N', 'o', 'd', 'e', 's'];
    assert(m@ =~= end_nodes_marker());
    m
}

fn elements_marker_chars() -> (m: Vec<char>)
    ensures
        m@ == elements_marker(),
{
    let m = vec!['$', 'E', 'l', 'e', 'm', 'e', 'n', 't', 's'];
    assert(m@ =~= elements_marker());
    m
}

/// Scans a Gmsh text: the coordinate tokens of its node records, its elements,
/// and its first structural fault, if any (the lines as `str::lines` splits
/// them, the tokens as `str::split_whitespace` does).
pub fn scan_gmsh(contents: &str) -> (scan: GmshScan)
    ensures
        scan.describes(str_lines(contents@)),
{
    let text = chars_of(contents);
    let ghost ls = str_lines(text@);
    assert(cursor_at(text@, 0, ls, 0)) by {
        assert(ls.subrange(0, ls.len() as int) =~= ls);
    }
    // Node section.
    let (found, mut p, Ghost(mut l)) = skip_to_marker(
        &text,
        0,
        &nodes_marker_chars(),
        Ghost(ls),
        Ghost(0),
    );
    let mut coordinates: Vec<(Vec<char>, Vec<char>)> = Vec::new();
    assert(coordinate_views(coordinates@) =~= Seq::<(Seq<char>, Seq<char>)>::empty());
    let ghost k = find_marker(ls, 0, nodes_marker());
    if found {
        assert(k == l - 1);
        let count_line = match next_line(&text, p, Ghost(ls), Ghost(l)) {
            None => {
                return GmshScan {
                    coordinates,
                    elements: Vec::new(),
                    fault: Some(GmshFault::MissingNodeCount),
                };
            },
            Some((line, next)) => {
                p = next;
                line
            },
        };
        let count = match parse_trimmed_usize(&count_line) {
            None => {
                return GmshScan {
                    coordinates,
                    elements: Vec::new(),
                    fault: Some(GmshFault::InvalidNodeCount),
                };
            },
            Some(c) => c,
        };
        let (coords, after, fault) = scan_node_records(&text, p, count, Ghost(ls), Ghost(l + 1));
        if fault.is_some() {
            return GmshScan { coordinates: coords, elements: Vec::new(), fault };
        }
        coordinates = coords;
        let ghost e = l + 1 + count;
        let end_ok = match next_line(&text, after, Ghost(ls), Ghost(e)) {
            None => false,
            Some((line, next)) => {
                p = next;
                trimmed_is(&line, &end_nodes_marker_chars())
            },
        };
        if !end_ok {
            return GmshScan {
                coordinates,
                elements: Vec::new(),
                fault: Some(GmshFault::MissingEndNodes),
            };
        }
        proof {
            l = e + 1;
        }
    }
    assert(coordinate_views(coordinates@) == node_section(ls).0);
    assert(node_section(ls).2 is None);
    assert(l == node_section(ls).1);
    // Element section.
    let (found_el, p2, Ghost(l2)) = skip_to_marker(
        &text,
        p,
        &elements_marker_chars(),
        Ghost(ls),
        Ghost(l),
    );
    let mut elements: Vec<ElementConnectivity> = Vec::new();
    if found_el {
        let count_line = match next_line(&text, p2, Ghost(ls), Ghost(l2)) {
            None => {
                return GmshScan {
                    coordinates,
                    elements,
                    fault: Some(GmshFault::MissingElementCount),
                };
            },
            Some((line, next)) => (line, next),
        };
        let count = match parse_trimmed_usize(&count_line.0) {
            None => {
                return GmshScan {
                    coordinates,
                    elements,
                    fault: Some(GmshFault::InvalidElementCount),
                };
            },
            Some(c) => c,
        };
        let (els, fault) = scan_element_records(&text, count_line.1, count, Ghost(ls), Ghost(l2 + 1));
        if fault.is_some() {
            return GmshScan { coordinates, elements: els, fault };
        }
        elements = els;
    }
    if coordinates.len() == 0 || elements.len() == 0 {
        return GmshScan { coordinates, elements, fault: Some(GmshFault::NoNodesOrElements) };
    }
    GmshScan { coordinates, elements, fault: None }
}


proof fn lemma_node_records_complete(ls: Seq<Seq<char>>, i: int, remaining: nat)
    ensures
        node_records(ls, i, remaining).1 is None ==> node_records(ls, i, remaining).0.len()
            == remaining,
    decreases remaining,
{
    if remaining > 0 && i < ls.len() {
        lemma_node_records_complete(ls, i + 1, (remaining - 1) as nat);
    }
}

proof fn lemma_element_records_bound(ls: Seq<Seq<char>>, i: int, remaining: nat)
    ensures
        element_records(ls, i, remaining).0.len() <= remaining,
    decreases remaining,
{
    if remaining > 0 && i < ls.len() {
        lemma_element_records_bound(ls, i + 1, (remaining - 1) as nat);
    }
}

/// A text that scans without a fault has a `$Nodes` line followed by a count
/// line, and yields exactly one coordinate pair per node record that the count
/// declares.
pub proof fn lemma_scan_node_count(ls: Seq<Seq<char>>)
    requires
        gmsh_scan(ls).2 is None,
    ensures
        ({
            let k = find_marker(ls, 0, nodes_marker());
            &&& k + 1 < ls.len()
            &&& parse_usize(trim(ls[k + 1])) == Some(gmsh_scan(ls).0.len() as usize)
        }),
{
    let k = find_marker(ls, 0, nodes_marker());
    if k + 1 < ls.len() {
        if let Some(c) = parse_usize(trim(ls[k + 1])) {
            lemma_node_records_complete(ls, k + 2, c as nat);
        }
    }
}

/// A text that scans without a fault has an `$Elements` line followed by a count
/// line, and yields at most as many elements as that count declares (records of
/// other element types are skipped).
pub proof fn lemma_scan_element_count(ls: Seq<Seq<char>>)
    requires
        gmsh_scan(ls).2 is None,
    ensures
        ({
            let k = find_marker(ls, node_section(ls).1, elements_marker());
            &&& k + 1 < ls.len()
            &&& parse_usize(trim(ls[k + 1])) matches Some(c) && gmsh_scan(ls).1.len() <= c
        }),
{
    let k = find_marker(ls, node_section(ls).1, elements_marker());
    if k + 1 < ls.len() {
        if let Some(c) = parse_usize(trim(ls[k + 1])) {
            lemma_element_records_bound(ls, k + 2, c as nat);
        }
    }
}

/// Reading a triangle record: when the record on line `i` has type `2`, `t`
/// tags and at least `6 + t` tokens, and the three tokens after the tags are
/// the one-based indices `n0`, `n1`, `n2`, the scan of the records from line
/// `i` yields the triangle of the zero-based indices `n0 - 1`, `n1 - 1`,
/// `n2 - 1` and then goes on with line `i + 1`, whatever the tag values are.
pub proof fn lemma_triangle_record_read(
    ls: Seq<Seq<char>>,
    i: int,
    remaining: nat,
    t: usize,
    n0: usize,
    n1: usize,
    n2: usize,
)
    requires
        0 <= i < ls.len(),
        split_whitespace(ls[i]).len() >= 6 + t,
        parse_i32(split_whitespace(ls[i])[1]) == Some(2i32),
        parse_usize(split_whitespace(ls[i])[2]) == Some(t),
        parse_usize(split_whitespace(ls[i])[3 + t]) == Some(n0),
        parse_usize(split_whitespace(ls[i])[4 + t]) == Some(n1),
        parse_usize(split_whitespace(ls[i])[5 + t]) == Some(n2),
        1 <= n0,
        1 <= n1,
        1 <= n2,
    ensures
        element_records(ls, i, remaining + 1) == (
            seq![ElementConnectivity::Triangle([(n0 - 1) as usize, (n1 - 1) as usize, (n2 - 1) as usize])]
                + element_records(ls, i + 1, remaining).0,
            element_records(ls, i + 1, remaining).1,
        ),
{
    let parts = split_whitespace(ls[i]);
    let ns = 3 + t;
    assert(forall|j: int| 0 <= j < 3 ==> #[trigger] parse_usize(parts[ns + j]) is Some) by {
        assert forall|j: int| 0 <= j < 3 implies #[trigger] parse_usize(parts[ns + j]) is Some by {
            if j == 0 {
                assert(parts[ns + j] == parts[3 + t]);
            } else if j == 1 {
                assert(parts[ns + j] == parts[4 + t]);
            } else {
                assert(parts[ns + j] == parts[5 + t]);
            }
        }
    }
    let ix = Seq::new(3, |j: int| from_one_based(parse_usize(parts[ns + j])->0));
    assert(parse_indices(parts, ns, 3) == Some(ix));
    assert(ix[0] == (n0 - 1) as usize);
    assert(ix[1] == (n1 - 1) as usize);
    assert(ix[2] == (n2 - 1) as usize);
}

/// Reading a quadrilateral record: when the record on line `i` has type `3`,
/// `t` tags and at least `7 + t` tokens, and the four tokens after the tags
/// are the one-based indices `n0 .. n3`, the scan of the records from line `i`
/// yields the quadrilateral of the zero-based indices and then goes on with
/// line `i + 1`, whatever the tag values are.
pub proof fn lemma_quadrilateral_record_read(
    ls: Seq<Seq<char>>,
    i: int,
    remaining: nat,
    t: usize,
    n0: usize,
    n1: usize,
    n2: usize,
    n3: usize,
)
    requires
        0 <= i < ls.len(),
        split_whitespace(ls[i]).len() >= 7 + t,
        parse_i32(split_whitespace(ls[i])[1]) == Some(3i32),
        parse_usize(split_whitespace(ls[i])[2]) == Some(t),
        parse_usize(split_whitespace(ls[i])[3 + t]) == Some(n0),
        parse_usize(split_whitespace(ls[i])[4 + t]) == Some(n1),
        parse_usize(split_whitespace(ls[i])[5 + t]) == Some(n2),
        parse_usize(split_whitespace(ls[i])[6 + t]) == Some(n3),
        1 <= n0,
        1 <= n1,
        1 <= n2,
        1 <= n3,
    ensures
        element_records(ls, i, remaining + 1) == (
            seq![
                ElementConnectivity::Quadrilateral(
                    [(n0 - 1) as usize, (n1 - 1) as usize, (n2 - 1) as usize, (n3 - 1) as usize],
                ),
            ] + element_records(ls, i + 1, remaining).0,
            element_records(ls, i + 1, remaining).1,
        ),
{
    let parts = split_whitespace(ls[i]);
    let ns = 3 + t;
    assert(forall|j: int| 0 <= j < 4 ==> #[trigger] parse_usize(parts[ns + j]) is Some) by {
        assert forall|j: int| 0 <= j < 4 implies #[trigger] parse_usize(parts[ns + j]) is Some by {
            if j == 0 {
                assert(parts[ns + j] == parts[3 + t]);
            } else if j == 1 {
                assert(parts[ns + j] == parts[4 + t]);
            } else if j == 2 {
                assert(parts[ns + j] == parts[5 + t]);
            } else {
                assert(parts[ns + j] == parts[6 + t]);
            }
        }
    }
    let ix = Seq::new(4, |j: int| from_one_based(parse_usize(parts[ns + j])->0));
    assert(parse_indices(parts, ns, 4) == Some(ix));
    assert(ix[0] == (n0 - 1) as usize);
    assert(ix[1] == (n1 - 1) as usize);
    assert(ix[2] == (n2 - 1) as usize);
    assert(ix[3] == (n3 - 1) as usize);
}

/// A triangle record stops the scan with `TriangleMissingNodes` exactly when
/// it is too short for its tags: at least five tokens, type `2`, `t` tags and
/// fewer than `6 + t` tokens. A long enough record yields a triangle or, when
/// a node token is not an index, `InvalidNodeIndex`.
pub proof fn lemma_triangle_record_short(ls: Seq<Seq<char>>, i: int, remaining: nat, t: usize)
    requires
        0 <= i < ls.len(),
        split_whitespace(ls[i]).len() >= 5,
        parse_i32(split_whitespace(ls[i])[1]) == Some(2i32),
        parse_usize(split_whitespace(ls[i])[2]) == Some(t),
    ensures
        split_whitespace(ls[i]).len() < 6 + t ==> element_records(ls, i, remaining + 1) == (
            Seq::<ElementConnectivity>::empty(),
            Some(GmshFault::TriangleMissingNodes),
        ),
        split_whitespace(ls[i]).len() >= 6 + t ==> (element_records(ls, i, remaining + 1) == (
            Seq::<ElementConnectivity>::empty(),
            Some(GmshFault::InvalidNodeIndex),
        ) || exists|a: [usize; 3]|
            element_records(ls, i, remaining + 1) == (
                seq![ElementConnectivity::Triangle(a)] + element_records(ls, i + 1, remaining).0,
                element_records(ls, i + 1, remaining).1,
            )),
{
    let parts = split_whitespace(ls[i]);
    if parts.len() >= 6 + t {
        if let Some(ix) = parse_indices(parts, 3 + t, 3) {
            let a = [ix[0], ix[1], ix[2]];
            assert(element_records(ls, i, remaining + 1) == (
                seq![ElementConnectivity::Triangle(a)] + element_records(ls, i + 1, remaining).0,
                element_records(ls, i + 1, remaining).1,
            ));
        }
    }
}

/// A quadrilateral record stops the scan with `QuadrilateralMissingNodes`
/// exactly when it is too short for its tags: at least five tokens, type `3`,
/// `t` tags and fewer than `7 + t` tokens. A long enough record yields a
/// quadrilateral or, when a node token is not an index, `InvalidNodeIndex`.
pub proof fn lemma_quadrilateral_record_short(ls: Seq<Seq<char>>, i: int, remaining: nat, t: usize)
    requires
        0 <= i < ls.len(),
        split_whitespace(ls[i]).len() >= 5,
        parse_i32(split_whitespace(ls[i])[1]) == Some(3i32),
        parse_usize(split_whitespace(ls[i])[2]) == Some(t),
    ensures
        split_whitespace(ls[i]).len() < 7 + t ==> element_records(ls, i, remaining + 1) == (
            Seq::<ElementConnectivity>::empty(),
            Some(GmshFault::QuadrilateralMissingNodes),
        ),
        split_whitespace(ls[i]).len() >= 7 + t ==> (element_records(ls, i, remaining + 1) == (
            Seq::<ElementConnectivity>::empty(),
            Some(GmshFault::InvalidNodeIndex),
        ) || exists|a: [usize; 4]|
            element_records(ls, i, remaining + 1) == (
                seq![ElementConnectivity::Quadrilateral(a)] + element_records(ls, i + 1, remaining).0,
                element_records(ls, i + 1, remaining).1,
            )),
{
    let parts = split_whitespace(ls[i]);
    if parts.len() >= 7 + t {
        if let Some(ix) = parse_indices(parts, 3 + t, 4) {
            let a = [ix[0], ix[1], ix[2], ix[3]];
            assert(element_records(ls, i, remaining + 1) == (
                seq![ElementConnectivity::Quadrilateral(a)] + element_records(ls, i + 1, remaining).0,
                element_records(ls, i + 1, remaining).1,
            ));
        }
    }
}

/// Reading a node record: a record of four or more tokens contributes its
/// second and third tokens (the `x` and `y` coordinates, after the node
/// number) and the scan goes on with the next line; a shorter record stops
/// the scan with `InvalidNodeRecord`.
pub proof fn lemma_node_record_read(ls: Seq<Seq<char>>, i: int, remaining: nat)
    requires
        0 <= i < ls.len(),
    ensures
        split_whitespace(ls[i]).len() >= 4 ==> node_records(ls, i, remaining + 1) == (
            seq![(split_whitespace(ls[i])[1], split_whitespace(ls[i])[2])] + node_records(
                ls,
                i + 1,
                remaining,
            ).0,
            node_records(ls, i + 1, remaining).1,
        ),
        split_whitespace(ls[i]).len() < 4 ==> node_records(ls, i, remaining + 1) == (
            Seq::<(Seq<char>, Seq<char>)>::empty(),
            Some(GmshFault::InvalidNodeRecord),
        ),
{
}

} // verus!
