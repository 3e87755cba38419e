//! Reading a base tree from an SU2 mesh file, given as its lines.
//!
//! A line holding `'='` opens a section: `NAME= value`, where the value
//! must be an unsigned number and `NDIME` must be the mesh dimension. In the
//! `NELEM` section each line is an element: its type (9, a quadrilateral),
//! its node ids and its own index, separated by single spaces. In the
//! `NPOIN` section each line is a node whose first two fields are its
//! coordinates. Other lines are ignored.

use vstd::prelude::*;

use crate::basetree::BaseTree;
use crate::consts::DIM;
use crate::text::{
    char_rows, contains_char, copy_range, find_sep, find_separator, parse_unsigned,
    parse_unsigned_token, split_on_spaces, split_spaces, trim, trimmed,
};

verus! {

/// The sections of an SU2 file that the reader acts on.
#[derive(PartialEq, Eq, Structural, Clone, Copy, Debug)]
pub enum Section {
    Dimension,
    Elements,
    Points,
    Other,
}

/// Why a line of an SU2 file could not be read.
#[derive(PartialEq, Eq, Structural, Clone, Copy, Debug)]
pub enum Su2ErrorKind {
    /// A section line without `"= "` after its name.
    MissingValue,
    /// A field that must be an unsigned number is not one, or is too large.
    InvalidNumber,
    /// The `NDIME` section gives a dimension other than the mesh's.
    WrongDimension,
    /// An element that is not a quadrilateral (type 9).
    UnsupportedElement,
}

/// An SU2 line that could not be read: its index among the lines, and why.
#[derive(PartialEq, Eq, Structural, Clone, Copy, Debug)]
pub struct Su2Error {
    pub line: usize,
    pub kind: Su2ErrorKind,
}

/// What has been read of an SU2 file so far: the current section, the
/// coordinate fields of each node, the node ids of all elements, and where
/// each element starts among them.
pub struct Su2Parse {
    pub section: Section,
    pub nodes: Seq<Seq<Seq<char>>>,
    pub elements: Seq<usize>,
    pub element_starts: Seq<usize>,
}

pub open spec fn section_of(name: Seq<char>) -> Section {
    if name == seq!['N', 'D', 'I', 'M', 'E'] {
        Section::Dimension
    } else if name == seq!['N', 'E', 'L', 'E', 'M'] {
        Section::Elements
    } else if name == seq!['N', 'P', 'O', 'I', 'N'] {
        Section::Points
    } else {
        Section::Other
    }
}

/// Before the first line.
pub open spec fn su2_initial() -> Su2Parse {
    Su2Parse {
        section: Section::Other,
        nodes: Seq::empty(),
        elements: Seq::empty(),
        element_starts: seq![0usize],
    }
}

/// The number field of a section line `t` (which holds a `'='`): the text
/// between its first `"= "` and the next one.
pub open spec fn section_value(t: Seq<char>) -> Seq<char> {
    let rest = t.subrange(find_sep(t, 0) + 2, t.len() as int);
    let q = find_sep(rest, 0);
    if q < 0 {
        rest
    } else {
        rest.subrange(0, q)
    }
}

/// The node ids on an element line, given its fields: all fields but the
/// type, read as numbers.
pub open spec fn element_fields(toks: Seq<Seq<char>>) -> Seq<usize> {
    Seq::new((toks.len() - 1) as nat, |k: int| parse_unsigned(toks[k + 1], usize::MAX as int)->0 as usize)
}

/// Reading one more line.
pub open spec fn su2_step(st: Su2Parse, line: Seq<char>) -> Result<Su2Parse, Su2ErrorKind> {
    let t = trim(line);
    if t.len() == 0 {
        Ok(st)
    } else if t.contains('=') {
        if find_sep(t, 0) < 0 {
            Err(Su2ErrorKind::MissingValue)
        } else {
            let section = section_of(t.subrange(0, find_sep(t, 0)));
            match parse_unsigned(section_value(t), usize::MAX as int) {
                None => Err(Su2ErrorKind::InvalidNumber),
                Some(v) => if section == Section::Dimension && v != DIM {
                    Err(Su2ErrorKind::WrongDimension)
                } else {
                    Ok(Su2Parse { section, ..st })
                },
            }
        }
    } else if st.section == Section::Elements {
        let toks = split_spaces(t);
        match parse_unsigned(toks[0], 255) {
            None => Err(Su2ErrorKind::InvalidNumber),
            Some(kind) => if kind != 9 {
                Err(Su2ErrorKind::UnsupportedElement)
            } else if exists|k: int|
                1 <= k < toks.len() && parse_unsigned(#[trigger] toks[k], usize::MAX as int) is None {
                Err(Su2ErrorKind::InvalidNumber)
            } else {
                // the last field is the element's own index, which is dropped
                let all = st.elements + element_fields(toks);
                let elements = if all.len() > 0 {
                    all.drop_last()
                } else {
                    all
                };
                Ok(
                    Su2Parse {
                        elements,
                        element_starts: st.element_starts.push(elements.len() as usize),
                        ..st
                    },
                )
            },
        }
    } else if st.section == Section::Points {
        let toks = split_spaces(t);
        let node = if toks.len() <= DIM {
            toks
        } else {
            toks.take(DIM as int)
        };
        Ok(Su2Parse { nodes: st.nodes.push(node), ..st })
    } else {
        Ok(st)
    }
}

/// Reading all of `lines`; an error names the first line that cannot be read.
pub open spec fn su2_parse(lines: Seq<Seq<char>>) -> Result<Su2Parse, (int, Su2ErrorKind)>
    decreases lines.len(),
{
    if lines.len() == 0 {
        Ok(su2_initial())
    } else {
        match su2_parse(lines.drop_last()) {
            Err(e) => Err(e),
            Ok(st) => match su2_step(st, lines.last()) {
                Ok(next) => Ok(next),
                Err(k) => Err(((lines.len() - 1) as int, k)),
            },
        }
    }
}

/// The coordinate fields of each node, as character rows.
pub open spec fn node_fields(nodes: Seq<Vec<Vec<char>>>) -> Seq<Seq<Seq<char>>> {
    nodes.map_values(|n: Vec<Vec<char>>| char_rows(n@))
}

/// Whether the first `len` characters of `t` are `w`.
fn starts_word(t: &Vec<char>, len: usize, w: &[char; 5]) -> (b: bool)
    requires
        len <= t.len(),
    ensures
        b == (t@.subrange(0, len as int) == w@),
{
    if len != 5 {
        assert(t@.subrange(0, len as int).len() != w@.len());
        return false;
    }
    let mut i: usize = 0;
    while i < 5
        invariant
            len == 5,
            len <= t.len(),
            i <= 5,
            forall|k: int| 0 <= k < i ==> t@[k] == w@[k],
        decreases 5 - i,
    {
        if t[i] != w[i] {
            assert(t@.subrange(0, len as int)[i as int] != w@[i as int]);
            return false;
        }
        i = i + 1;
    }
    assert(t@.subrange(0, len as int) =~= w@);
    true
}

/// The section that the name `t[0..len]` opens.
fn section_of_name(t: &Vec<char>, len: usize) -> (s: Section)
    requires
        len <= t.len(),
    ensures
        s == section_of(t@.subrange(0, len as int)),
{
    let ndime = ['N', 'D', 'I', 'M', 'E'];
    let nelem = ['N', 'E', 'L', 'E', 'M'];
    let npoin = ['N', 'P', 'O', 'I', 'N'];
    assert(ndime@ =~= seq!['N', 'D', 'I', 'M', 'E']);
    assert(nelem@ =~= seq!['N', 'E', 'L', 'E', 'M']);
    assert(npoin@ =~= seq!['N', 'P', 'O', 'I', 'N']);
    if starts_word(t, len, &ndime) {
        Section::Dimension
    } else if starts_word(t, len, &nelem) {
        Section::Elements
    } else if starts_word(t, len, &npoin) {
        Section::Points
    } else {
        Section::Other
    }
}

/// The state that the reader's variables hold.
pub open spec fn reader_state(
    section: Section,
    nodes: Seq<Vec<Vec<char>>>,
    elements: Seq<usize>,
    starts: Seq<usize>,
) -> Su2Parse {
    Su2Parse { section, nodes: node_fields(nodes), elements, element_starts: starts }
}

/// Reads one line into the reader's variables.
fn read_line(
    line: &Vec<char>,
    section: &mut Section,
    nodes: &mut Vec<Vec<Vec<char>>>,
    elements: &mut Vec<usize>,
    starts: &mut Vec<usize>,
) -> (r: Result<(), Su2ErrorKind>)
    ensures
        match su2_step(reader_state(*old(section), old(nodes)@, old(elements)@, old(starts)@), line@) {
            Ok(next) => r is Ok && reader_state(
                *final(section),
                final(nodes)@,
                final(elements)@,
                final(starts)@,
            ) == next,
            Err(k) => r == Err::<(), Su2ErrorKind>(k),
        },
{
    let t = trimmed(line);
    if t.len() == 0 {
        return Ok(());
    }
    if contains_char(&t, '=') {
        let p = match find_separator(&t, 0) {
            None => {
                return Err(Su2ErrorKind::MissingValue);
            },
            Some(p) => p,
        };
        let new_section = section_of_name(&t, p);
        let rest = copy_range(&t, p + 2, t.len());
        let value = match find_separator(&rest, 0) {
            None => rest,
            Some(q) => copy_range(&rest, 0, q),
        };
        assert(value@ == section_value(t@));
        match parse_unsigned_token(&value, usize::MAX) {
            None => {
                return Err(Su2ErrorKind::InvalidNumber);
            },
            Some(v) => {
                if new_section == Section::Dimension && v != DIM {
                    return Err(Su2ErrorKind::WrongDimension);
                }
                *section = new_section;
                return Ok(());
            },
        }
    }
    if *section == Section::Elements {
        let toks = split_on_spaces(&t);
        assert(char_rows(toks@)[0] == toks@[0]@);
        let kind = match parse_unsigned_token(&toks[0], 255) {
            None => {
                return Err(Su2ErrorKind::InvalidNumber);
            },
            Some(kind) => kind,
        };
        if kind != 9 {
            return Err(Su2ErrorKind::UnsupportedElement);
        }
        let ghost before = elements@;
        let ghost rows = char_rows(toks@);
        let mut k: usize = 1;
        #[verifier::loop_isolation(false)]
        while k < toks.len()
            invariant
                1 <= k <= toks.len(),
                rows == char_rows(toks@),
                forall|j: int| 1 <= j < k ==> parse_unsigned(#[trigger] rows[j], usize::MAX as int) is Some,
                elements@ == before + element_fields(rows).take(k - 1),
            decreases toks.len() - k,
        {
            assert(rows[k as int] == toks@[k as int]@);
            match parse_unsigned_token(&toks[k], usize::MAX) {
                None => {
                    assert(parse_unsigned(rows[k as int], usize::MAX as int) is None);
                    assert(1 <= k < rows.len());
                    return Err(Su2ErrorKind::InvalidNumber);
                },
                Some(v) => {
                    elements.push(v);
                    assert(element_fields(rows).take(k as int) =~= element_fields(rows).take(
                        k - 1,
                    ).push(v));
                },
            }
            k = k + 1;
        }
        assert(element_fields(rows).take(toks.len() - 1) =~= element_fields(rows));
        let _ = elements.pop();
        let n = elements.len();
        starts.push(n);
        return Ok(());
    }
    if *section == Section::Points {
        let mut toks = split_on_spaces(&t);
        let ghost all = char_rows(toks@);
        toks.truncate(DIM);
        assert(char_rows(toks@) =~= (if all.len() <= DIM {
            all
        } else {
            all.take(DIM as int)
        }));
        let ghost old_nodes = nodes@;
        nodes.push(toks);
        assert(node_fields(nodes@) =~= node_fields(old_nodes).push(char_rows(toks@)));
        return Ok(());
    }
    Ok(())
}

impl BaseTree<Vec<Vec<char>>> {
    /// Reads a base tree from the lines of an SU2 file. Each node holds its
    /// coordinate fields (at most two), still to be read as numbers.
    pub fn from_su2(lines: &Vec<Vec<char>>) -> (r: Result<Self, Su2Error>)
        ensures
            match (r, su2_parse(char_rows(lines@))) {
                (Ok(t), Ok(st)) => node_fields(t.node_seq()) == st.nodes && t.element_seq()
                    == st.elements && t.start_seq() == st.element_starts,
                (Err(e), Err((i, k))) => e.line == i && e.kind == k,
                _ => false,
            },
    {
        let mut section = Section::Other;
        let mut nodes: Vec<Vec<Vec<char>>> = Vec::new();
        let mut elements: Vec<usize> = Vec::new();
        let mut starts: Vec<usize> = Vec::new();
        starts.push(0);
        let ghost rows = char_rows(lines@);
        assert(reader_state(section, nodes@, elements@, starts@) == su2_initial()) by {
            assert(node_fields(nodes@) =~= Seq::empty());
            assert(starts@ =~= seq![0usize]);
        }
        assert(rows.take(0) =~= Seq::<Seq<char>>::empty());
        let mut i: usize = 0;
        while i < lines.len()
            invariant
                i <= lines.len(),
                rows == char_rows(lines@),
                su2_parse(rows.take(i as int)) == Ok::<Su2Parse, (int, Su2ErrorKind)>(
                    reader_state(section, nodes@, elements@, starts@),
                ),
                starts@.len() >= 1,
            decreases lines.len() - i,
        {
            assert(rows.take(i as int + 1).drop_last() =~= rows.take(i as int));
            assert(rows.take(i as int + 1).last() == lines@[i as int]@);
            match read_line(&lines[i], &mut section, &mut nodes, &mut elements, &mut starts) {
                Err(kind) => {
                    proof {
                        lemma_su2_parse_error_stays(rows, i as int + 1);
                    }
                    return Err(Su2Error { line: i, kind });
                },
                Ok(()) => {},
            }
            i = i + 1;
        }
        assert(rows.take(lines.len() as int) =~= rows);
        Ok(BaseTree::from_parts(nodes, elements, starts))
    }
}

/// Once a prefix of the lines fails, reading all of them fails at the same line.
proof fn lemma_su2_parse_error_stays(lines: Seq<Seq<char>>, n: int)
    requires
        0 <= n <= lines.len(),
        su2_parse(lines.take(n)) is Err,
    ensures
        su2_parse(lines) == su2_parse(lines.take(n)),
    decreases lines.len() - n,
{
    if n < lines.len() {
        assert(lines.take(n + 1).drop_last() =~= lines.take(n));
        lemma_su2_parse_error_stays(lines, n + 1);
    } else {
        assert(lines.take(n) =~= lines);
    }
}


/// Law: in the `NPOIN` section, a point line (no `'='`) adds one node that
/// holds exactly the first `min(DIM, m)` of the line's `m` fields, in
/// order, and changes nothing else.
pub proof fn lemma_point_line_keeps_fields(st: Su2Parse, line: Seq<char>)
    requires
        st.section == Section::Points,
        trim(line).len() > 0,
        !trim(line).contains('='),
    ensures
        su2_step(st, line) is Ok,
        ({
            let r = su2_step(st, line)->Ok_0;
            let toks = split_spaces(trim(line));
            let kept = if toks.len() < DIM {
                toks.len() as int
            } else {
                DIM as int
            };
            &&& r.nodes.len() == st.nodes.len() + 1
            &&& r.nodes.take(st.nodes.len() as int) == st.nodes
            &&& r.nodes.last().len() == kept
            &&& forall|k: int| 0 <= k < kept ==> #[trigger] r.nodes.last()[k] == toks[k]
            &&& r.section == st.section
            &&& r.elements == st.elements
            &&& r.element_starts == st.element_starts
        }),
{
    let r = su2_step(st, line)->Ok_0;
    assert(r.nodes.take(st.nodes.len() as int) =~= st.nodes);
}


/// Law: in the `NELEM` section, a quadrilateral line (type 9) of `m >= 2`
/// numeric fields adds the `m - 2` node ids between its type and its own
/// index, in order, and records where the new element ends.
pub proof fn lemma_element_line_adds_nodes(st: Su2Parse, line: Seq<char>)
    requires
        st.section == Section::Elements,
        trim(line).len() > 0,
        !trim(line).contains('='),
        split_spaces(trim(line)).len() >= 2,
        parse_unsigned(split_spaces(trim(line))[0], 255) == Some(9nat),
        forall|k: int|
            1 <= k < split_spaces(trim(line)).len() ==> parse_unsigned(
                #[trigger] split_spaces(trim(line))[k],
                usize::MAX as int,
            ) is Some,
    ensures
        su2_step(st, line) is Ok,
        ({
            let r = su2_step(st, line)->Ok_0;
            let toks = split_spaces(trim(line));
            &&& r.elements.len() == st.elements.len() + toks.len() - 2
            &&& r.elements.take(st.elements.len() as int) == st.elements
            &&& forall|k: int|
                0 <= k < toks.len() - 2 ==> #[trigger] r.elements[st.elements.len() + k] as nat
                    == parse_unsigned(toks[k + 1], usize::MAX as int)->0
            &&& r.element_starts == st.element_starts.push(r.elements.len() as usize)
            &&& r.nodes == st.nodes
            &&& r.section == st.section
        }),
{
    let toks = split_spaces(trim(line));
    let r = su2_step(st, line)->Ok_0;
    assert(!(exists|k: int|
        1 <= k < toks.len() && parse_unsigned(#[trigger] toks[k], usize::MAX as int) is None));
    let all = st.elements + element_fields(toks);
    assert(r.elements == all.drop_last());
    assert(r.elements.take(st.elements.len() as int) =~= st.elements);
    assert forall|k: int| 0 <= k < toks.len() - 2 implies #[trigger] r.elements[st.elements.len() + k] as nat
        == parse_unsigned(toks[k + 1], usize::MAX as int)->0 by {
        assert(r.elements[st.elements.len() + k] == element_fields(toks)[k]);
        assert(parse_unsigned(toks[k + 1], usize::MAX as int) is Some);
    }
}

/// Law: a section line `NAME= v` with a number `v` opens the section that
/// `NAME` names, and fails exactly when `NAME` is `NDIME` and `v` is not the
/// mesh dimension; nothing read so far changes.
pub proof fn lemma_section_line(st: Su2Parse, line: Seq<char>)
    requires
        trim(line).len() > 0,
        trim(line).contains('='),
        find_sep(trim(line), 0) >= 0,
        parse_unsigned(section_value(trim(line)), usize::MAX as int) is Some,
    ensures
        ({
            let t = trim(line);
            let name = t.subrange(0, find_sep(t, 0));
            let v = parse_unsigned(section_value(t), usize::MAX as int)->0;
            &&& (su2_step(st, line) is Err <==> (name == seq!['N', 'D', 'I', 'M', 'E'] && v != DIM))
            &&& su2_step(st, line) matches Ok(r) ==> {
                &&& r.section == section_of(name)
                &&& r.nodes == st.nodes
                &&& r.elements == st.elements
                &&& r.element_starts == st.element_starts
            }
        }),
{
}

} // verus!
