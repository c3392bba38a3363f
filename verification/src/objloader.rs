//! Wavefront OBJ text.
//!
//! A file is read line by line. A line is cut into fields at runs of spaces;
//! its first field names the record. `v`, `vt` and `vn` records carry three
//! numbers, which are kept as the file writes them: this library reads no
//! number with a fraction. An `f` record carries three corners, each written
//! as `position/texture/normal`, three indices that count from 1. Any other
//! line is skipped.
use crate::renderer::{coords_texts, Coords, CoordsView, Face, Index, Mesh, MeshView};
use crate::text::{decimal, lemma_split_nonempty, parse_i32, split_bytes, split_on, texts};
use vstd::prelude::*;

verus! {

/// The error of the `regex` compiler, carried through unread.
#[verifier::external_type_specification]
#[verifier::external_body]
pub struct ExRegexError(regex::Error);

/// The parts of `text` that no match of the regular expression `pattern`
/// covers, in their order, as `regex::bytes::Regex::split` yields them;
/// `None` where `regex::bytes::Regex::new` refuses the pattern.
pub uninterp spec fn regex_split(pattern: Seq<char>, text: Seq<u8>) -> Option<Seq<Seq<u8>>>;

/// Compiles `pattern` with `regex::bytes::Regex::new` and collects what
/// `regex::bytes::Regex::split` yields for `text`. The contract only gives
/// the outcome its name.
#[verifier::external_body]
pub(crate) fn split(pattern: &str, text: &[u8]) -> (r: Result<Vec<Vec<u8>>, regex::Error>)
    ensures
        match r {
            Ok(fields) => regex_split(pattern@, text@) == Some(texts(fields@)),
            Err(_) => regex_split(pattern@, text@) is None,
        },
{
    let re = regex::bytes::Regex::new(pattern)?;
    Ok(re.split(text).map(|field| field.to_vec()).collect())
}

/// Why a file could not be read as a mesh.
#[derive(Clone, Copy, Debug, PartialEq, Eq, Structural)]
pub enum ObjError {
    /// The pattern that separates the fields was refused.
    Pattern,
    /// A record has fewer fields than its kind needs, or a corner of a face
    /// has fewer than three indices.
    MissingField,
    /// An index of a face is not a decimal integer of 32 bits.
    BadIndex,
    /// An index of a face is negative, or there is no element with that
    /// index.
    IndexOutOfRange,
}

/// One line of a file.
pub enum Record {
    Position(Coords),
    TexCoord(Coords),
    Normal(Coords),
    Face(Face),
    Other,
}

/// A record as contracts speak of it, its texts as sequences of bytes.
pub enum RecordView {
    Position(CoordsView),
    TexCoord(CoordsView),
    Normal(CoordsView),
    Face(Seq<Index>),
    Other,
}

impl View for Record {
    type V = RecordView;

    open spec fn view(&self) -> RecordView {
        match self {
            Record::Position(c) => RecordView::Position(c@),
            Record::TexCoord(c) => RecordView::TexCoord(c@),
            Record::Normal(c) => RecordView::Normal(c@),
            Record::Face(f) => RecordView::Face(f.points@),
            Record::Other => RecordView::Other,
        }
    }
}

/// The three numbers of a `v`, `vt` or `vn` record: its second, third and
/// fourth field.
pub open spec fn coords_of(fields: Seq<Seq<u8>>) -> Result<CoordsView, ObjError> {
    if fields.len() < 4 {
        Err(ObjError::MissingField)
    } else {
        Ok(CoordsView { x: fields[1], y: fields[2], z: fields[3] })
    }
}

/// One index of a corner: the decimal integer that `part` writes.
pub open spec fn index_of(part: Seq<u8>) -> Result<usize, ObjError> {
    match decimal(part) {
        Some(v) => if v < i32::MIN || v > i32::MAX {
            Err(ObjError::BadIndex)
        } else if v < 0 {
            Err(ObjError::IndexOutOfRange)
        } else {
            Ok(v as usize)
        },
        None => Err(ObjError::BadIndex),
    }
}

/// The corner that `field` writes: the first three of its parts between
/// slashes, read in turn.
pub open spec fn corner_of(field: Seq<u8>) -> Result<Index, ObjError> {
    let parts = split_on(field, 47);
    match index_of(parts[0]) {
        Err(e) => Err(e),
        Ok(vertex) => if parts.len() < 2 {
            Err(ObjError::MissingField)
        } else {
            match index_of(parts[1]) {
                Err(e) => Err(e),
                Ok(tex) => if parts.len() < 3 {
                    Err(ObjError::MissingField)
                } else {
                    match index_of(parts[2]) {
                        Err(e) => Err(e),
                        Ok(normal) => Ok(Index { vertex, tex, normal }),
                    }
                },
            }
        },
    }
}

/// The three corners of an `f` record: its second, third and fourth field,
/// read in turn.
pub open spec fn face_of(fields: Seq<Seq<u8>>) -> Result<Seq<Index>, ObjError> {
    if fields.len() < 2 {
        Err(ObjError::MissingField)
    } else {
        match corner_of(fields[1]) {
            Err(e) => Err(e),
            Ok(first) => if fields.len() < 3 {
                Err(ObjError::MissingField)
            } else {
                match corner_of(fields[2]) {
                    Err(e) => Err(e),
                    Ok(second) => if fields.len() < 4 {
                        Err(ObjError::MissingField)
                    } else {
                        match corner_of(fields[3]) {
                            Err(e) => Err(e),
                            Ok(third) => Ok(seq![first, second, third]),
                        }
                    },
                }
            },
        }
    }
}

/// The record that the fields of a line write.
pub open spec fn record_of(fields: Seq<Seq<u8>>) -> Result<RecordView, ObjError> {
    if fields.len() == 0 {
        Ok(RecordView::Other)
    } else if fields[0] == seq![118u8] {
        match coords_of(fields) {
            Ok(c) => Ok(RecordView::Position(c)),
            Err(e) => Err(e),
        }
    } else if fields[0] == seq![118u8, 116u8] {
        match coords_of(fields) {
            Ok(c) => Ok(RecordView::TexCoord(c)),
            Err(e) => Err(e),
        }
    } else if fields[0] == seq![118u8, 110u8] {
        match coords_of(fields) {
            Ok(c) => Ok(RecordView::Normal(c)),
            Err(e) => Err(e),
        }
    } else if fields[0] == seq![102u8] {
        match face_of(fields) {
            Ok(f) => Ok(RecordView::Face(f)),
            Err(e) => Err(e),
        }
    } else {
        Ok(RecordView::Other)
    }
}

fn copy_text(field: &Vec<u8>) -> (r: Vec<u8>)
    ensures
        r@ == field@,
{
    let mut r: Vec<u8> = Vec::new();
    let mut i: usize = 0;
    while i < field.len()
        invariant
            i <= field@.len(),
            r@ == field@.take(i as int),
        decreases field@.len() - i,
    {
        r.push(field[i]);
        assert(r@ =~= field@.take(i + 1));
        i += 1;
    }
    assert(field@.take(field@.len() as int) =~= field@);
    r
}

fn parse_coords(fields: &Vec<Vec<u8>>) -> (r: Result<Coords, ObjError>)
    ensures
        match r {
            Ok(c) => coords_of(texts(fields@)) == Ok::<CoordsView, ObjError>(c@),
            Err(e) => coords_of(texts(fields@)) == Err::<CoordsView, ObjError>(e),
        },
{
    if fields.len() < 4 {
        return Err(ObjError::MissingField);
    }
    Ok(Coords { x: copy_text(&fields[1]), y: copy_text(&fields[2]), z: copy_text(&fields[3]) })
}

fn parse_index(part: &Vec<u8>) -> (r: Result<usize, ObjError>)
    ensures
        r == index_of(part@),
{
    match parse_i32(part.as_slice()) {
        Some(v) => if v < 0 {
            Err(ObjError::IndexOutOfRange)
        } else {
            Ok(v as usize)
        },
        None => Err(ObjError::BadIndex),
    }
}

fn parse_corner(field: &Vec<u8>) -> (r: Result<Index, ObjError>)
    ensures
        r == corner_of(field@),
{
    let parts = split_bytes(field.as_slice(), 47);
    proof {
        lemma_split_nonempty(field@, 47);
        assert(texts(parts@).len() == parts@.len());
    }
    assert(texts(parts@)[0] == parts@[0]@);
    let vertex = match parse_index(&parts[0]) {
        Ok(i) => i,
        Err(e) => {
            return Err(e);
        },
    };
    if parts.len() < 2 {
        return Err(ObjError::MissingField);
    }
    assert(texts(parts@)[1] == parts@[1]@);
    let tex = match parse_index(&parts[1]) {
        Ok(i) => i,
        Err(e) => {
            return Err(e);
        },
    };
    if parts.len() < 3 {
        return Err(ObjError::MissingField);
    }
    assert(texts(parts@)[2] == parts@[2]@);
    let normal = match parse_index(&parts[2]) {
        Ok(i) => i,
        Err(e) => {
            return Err(e);
        },
    };
    Ok(Index::new(vertex, tex, normal))
}

fn parse_face(fields: &Vec<Vec<u8>>) -> (r: Result<Face, ObjError>)
    ensures
        match r {
            Ok(f) => face_of(texts(fields@)) == Ok::<Seq<Index>, ObjError>(f.points@),
            Err(e) => face_of(texts(fields@)) == Err::<Seq<Index>, ObjError>(e),
        },
{
    let ghost t = texts(fields@);
    if fields.len() < 2 {
        return Err(ObjError::MissingField);
    }
    assert(t[1] == fields@[1]@);
    let first = match parse_corner(&fields[1]) {
        Ok(p) => p,
        Err(e) => {
            return Err(e);
        },
    };
    if fields.len() < 3 {
        return Err(ObjError::MissingField);
    }
    assert(t[2] == fields@[2]@);
    let second = match parse_corner(&fields[2]) {
        Ok(p) => p,
        Err(e) => {
            return Err(e);
        },
    };
    if fields.len() < 4 {
        return Err(ObjError::MissingField);
    }
    assert(t[3] == fields@[3]@);
    let third = match parse_corner(&fields[3]) {
        Ok(p) => p,
        Err(e) => {
            return Err(e);
        },
    };
    Ok(Face::new(first, second, third))
}

fn names(field: &Vec<u8>, first: u8) -> (r: bool)
    ensures
        r == (field@ == seq![first]),
{
    let r = field.len() == 1 && field[0] == first;
    assert(r ==> field@ =~= seq![first]);
    assert(!r ==> field@.len() != 1 || field@[0] != seq![first][0]);
    r
}

fn names_pair(field: &Vec<u8>, first: u8, second: u8) -> (r: bool)
    ensures
        r == (field@ == seq![first, second]),
{
    let r = field.len() == 2 && field[0] == first && field[1] == second;
    assert(r ==> field@ =~= seq![first, second]);
    assert(!r ==> field@.len() != 2 || field@[0] != seq![first, second][0] || field@[1] != seq![
        first,
        second,
    ][1]);
    r
}

/// Reads the record that the fields of one line write.
pub fn parse_fields(fields: &Vec<Vec<u8>>) -> (r: Result<Record, ObjError>)
    ensures
        match r {
            Ok(record) => record_of(texts(fields@)) == Ok::<RecordView, ObjError>(record@),
            Err(e) => record_of(texts(fields@)) == Err::<RecordView, ObjError>(e),
        },
{
    if fields.len() == 0 {
        return Ok(Record::Other);
    }
    assert(texts(fields@)[0] == fields@[0]@);
    let kind = &fields[0];
    if names(kind, 118) {
        match parse_coords(fields) {
            Ok(c) => Ok(Record::Position(c)),
            Err(e) => Err(e),
        }
    } else if names_pair(kind, 118, 116) {
        match parse_coords(fields) {
            Ok(c) => Ok(Record::TexCoord(c)),
            Err(e) => Err(e),
        }
    } else if names_pair(kind, 118, 110) {
        match parse_coords(fields) {
            Ok(c) => Ok(Record::Normal(c)),
            Err(e) => Err(e),
        }
    } else if names(kind, 102) {
        match parse_face(fields) {
            Ok(f) => Ok(Record::Face(f)),
            Err(e) => Err(e),
        }
    } else {
        Ok(Record::Other)
    }
}

impl MeshView {
    /// The mesh with one more record read into it.
    pub open spec fn with(self, record: RecordView) -> MeshView {
        match record {
            RecordView::Position(c) => MeshView { vs: self.vs.push(c), ..self },
            RecordView::TexCoord(c) => MeshView { tex: self.tex.push(c), ..self },
            RecordView::Normal(c) => MeshView { ns: self.ns.push(c), ..self },
            RecordView::Face(points) => MeshView { indexes: self.indexes + points, ..self },
            RecordView::Other => self,
        }
    }
}

/// The pattern that separates the fields of a line: one space or more.
pub open spec fn separator() -> Seq<char> {
    " +"@
}

/// The mesh with one more line read into it.
pub open spec fn read_line(mesh: MeshView, line: Seq<u8>) -> Result<MeshView, ObjError> {
    match regex_split(separator(), line) {
        None => Err(ObjError::Pattern),
        Some(fields) => match record_of(fields) {
            Err(e) => Err(e),
            Ok(record) => Ok(mesh.with(record)),
        },
    }
}

/// The mesh that the lines of a file write, read in turn into the empty
/// mesh up to the first line that cannot be read.
pub open spec fn read_lines(lines: Seq<Seq<u8>>) -> Result<MeshView, ObjError>
    decreases lines.len(),
{
    if lines.len() == 0 {
        Ok(MeshView::empty())
    } else {
        match read_lines(lines.drop_last()) {
            Err(e) => Err(e),
            Ok(mesh) => read_line(mesh, lines.last()),
        }
    }
}

/// The mesh that a file writes: that of its lines, which the line feed
/// separates, unless a face names an element that the mesh does not have.
pub open spec fn obj_mesh(content: Seq<u8>) -> Result<MeshView, ObjError> {
    match read_lines(split_on(content, 10)) {
        Err(e) => Err(e),
        Ok(mesh) => if mesh.in_range() {
            Ok(mesh)
        } else {
            Err(ObjError::IndexOutOfRange)
        },
    }
}

impl Mesh {
    /// The mesh of an empty file: no face, and in each array the one element
    /// that stands before the first of the file, so that the indices of the
    /// file, which count from 1, index the arrays as they are.
    pub fn new() -> (r: Self)
        ensures
            r@ == MeshView::empty(),
    {
        let r = Self {
            vs: vec![zero_coords()],
            tex: vec![zero_coords()],
            ns: vec![zero_coords()],
            indexes: Vec::new(),
        };
        assert(r@.vs =~= MeshView::empty().vs);
        assert(r@.tex =~= MeshView::empty().tex);
        assert(r@.ns =~= MeshView::empty().ns);
        assert(r@.indexes =~= MeshView::empty().indexes);
        r
    }

    /// Reads one more record into the mesh.
    pub fn push_record(&mut self, record: Record)
        ensures
            final(self)@ == old(self)@.with(record@),
    {
        match record {
            Record::Position(c) => {
                self.vs.push(c);
                assert(self@.vs =~= old(self)@.vs.push(c@));
            },
            Record::TexCoord(c) => {
                self.tex.push(c);
                assert(self@.tex =~= old(self)@.tex.push(c@));
            },
            Record::Normal(c) => {
                self.ns.push(c);
                assert(self@.ns =~= old(self)@.ns.push(c@));
            },
            Record::Face(f) => {
                self.indexes.push(f.points[0]);
                self.indexes.push(f.points[1]);
                self.indexes.push(f.points[2]);
                assert(self@.indexes =~= old(self)@.indexes + f.points@);
            },
            Record::Other => {},
        }
    }

    /// Whether every corner names elements that the mesh has.
    pub fn indexes_in_range(&self) -> (r: bool)
        ensures
            r == self@.in_range(),
    {
        let mut i: usize = 0;
        while i < self.indexes.len()
            invariant
                i <= self.indexes@.len(),
                forall|j: int| 0 <= j < i ==> self@.names_elements(#[trigger] self.indexes@[j]),
            decreases self.indexes@.len() - i,
        {
            let p = self.indexes[i];
            if p.vertex >= self.vs.len() || p.tex >= self.tex.len() || p.normal >= self.ns.len() {
                assert(!self@.names_elements(self@.indexes[i as int]));
                return false;
            }
            i += 1;
        }
        true
    }
}

fn zero_coords() -> (r: Coords)
    ensures
        r@ == CoordsView::zero(),
{
    let r = Coords { x: vec![48u8], y: vec![48u8], z: vec![48u8] };
    assert(r.x@ =~= seq![48u8]);
    assert(r.y@ =~= seq![48u8]);
    assert(r.z@ =~= seq![48u8]);
    r
}

/// Reading records keeps the faces whole and the first element of each
/// array in place.
pub proof fn lemma_read_lines_whole(lines: Seq<Seq<u8>>)
    ensures
        read_lines(lines) matches Ok(mesh) ==> mesh.whole(),
    decreases lines.len(),
{
    if lines.len() > 0 {
        lemma_read_lines_whole(lines.drop_last());
        if let Ok(front) = read_lines(lines.drop_last()) {
            if let Some(fields) = regex_split(separator(), lines.last()) {
                if let Ok(RecordView::Face(points)) = record_of(fields) {
                    assert(points.len() == 3);
                }
            }
        }
    }
}

/// Reads the text of an OBJ file into a mesh.
pub fn load_obj(content: &[u8]) -> (r: Result<Mesh, ObjError>)
    ensures
        match r {
            Ok(mesh) => mesh.wf() && obj_mesh(content@) == Ok::<MeshView, ObjError>(mesh@),
            Err(e) => obj_mesh(content@) == Err::<MeshView, ObjError>(e),
        },
{
    let lines = split_bytes(content, 10);
    let ghost all = texts(lines@);
    let mut mesh = Mesh::new();
    let mut i: usize = 0;
    assert(all.take(0) =~= Seq::<Seq<u8>>::empty());
    while i < lines.len()
        invariant
            i <= lines@.len(),
            all == texts(lines@),
            all == split_on(content@, 10),
            read_lines(all.take(i as int)) == Ok::<MeshView, ObjError>(mesh@),
        decreases lines@.len() - i,
    {
        let ghost next = all.take(i + 1);
        assert(next.drop_last() =~= all.take(i as int));
        assert(next.last() == lines@[i as int]@);
        let fields = match split(" +", lines[i].as_slice()) {
            Ok(fields) => fields,
            Err(_) => {
                proof {
                    assert(read_lines(next) == Err::<MeshView, ObjError>(ObjError::Pattern));
                    lemma_read_lines_stops(all, i + 1);
                }
                return Err(ObjError::Pattern);
            },
        };
        let record = match parse_fields(&fields) {
            Ok(record) => record,
            Err(e) => {
                proof {
                    assert(read_lines(next) == Err::<MeshView, ObjError>(e));
                    lemma_read_lines_stops(all, i + 1);
                }
                return Err(e);
            },
        };
        mesh.push_record(record);
        assert(read_lines(next) == Ok::<MeshView, ObjError>(mesh@));
        i += 1;
    }
    assert(all.take(lines@.len() as int) =~= all);
    proof {
        lemma_read_lines_whole(all);
    }
    if mesh.indexes_in_range() {
        Ok(mesh)
    } else {
        Err(ObjError::IndexOutOfRange)
    }
}

/// Once the first lines of a file cannot be read, the file cannot be read,
/// and the error is the same.
pub proof fn lemma_read_lines_stops(lines: Seq<Seq<u8>>, n: int)
    requires
        0 <= n <= lines.len(),
        read_lines(lines.take(n)) is Err,
    ensures
        read_lines(lines) == read_lines(lines.take(n)),
    decreases lines.len() - n,
{
    if n == lines.len() {
        assert(lines.take(n) =~= lines);
    } else {
        assert(lines.take(n + 1).drop_last() =~= lines.take(n));
        lemma_read_lines_stops(lines, n + 1);
    }
}

} // verus!
