//! Wavefront mesh descriptions: which lines describe a vertex, a texture
//! coordinate or a face, what such a line says, and the mesh that the lines
//! of a description make up. Numbers with a fraction are kept as text.

use vstd::prelude::*;
use vstd::string::StrSliceExecFns;
use regex::Regex;

verus! {

/// The pattern of a vertex line: `v` and three numbers.
pub const VERTEX_PATTERN: &'static str = r"v\s(?P<x>[0-9-\.e]+)\s(?P<y>[0-9-\.e]+)\s(?P<z>[0-9-\.e]+)";

/// The pattern of a texture coordinate line: `vt` and two numbers.
pub const TEXTURE_PATTERN: &'static str = r"vt\s\s(?P<u>[0-9-\.e]+)\s(?P<v>[0-9-\.e]+)";

/// The pattern of a face line: `f` and three corners, each a vertex index, a
/// texture index and a normal index.
pub const FACE_PATTERN: &'static str =
    r"f\s(?P<v0>[0-9]*)/(?P<t0>[0-9]*)/[0-9]*\s(?P<v1>[0-9]*)/(?P<t1>[0-9]*)/[0-9]*\s(?P<v2>[0-9]*)/(?P<t2>[0-9]*)/[0-9]*";

/// What a search for the regular expression `pattern` finds in `line`:
/// nothing where the pattern is no regular expression or occurs nowhere in
/// the line; else the text of each capture group of the leftmost match, the
/// whole match first, with `None` for a group that took no part in it.
pub uninterp spec fn regex_captures(pattern: Seq<char>, line: Seq<char>) -> Option<
    Seq<Option<Seq<char>>>,
>;

/// The texts of capture groups as sequences of characters.
pub open spec fn groups_model(groups: Seq<Option<String>>) -> Seq<Option<Seq<char>>> {
    Seq::new(
        groups.len(),
        |i: int|
            match groups[i] {
                Some(text) => Some(text@),
                None => None,
            },
    )
}

pub open spec fn captures_model(captures: Option<Vec<Option<String>>>) -> Option<
    Seq<Option<Seq<char>>>,
> {
    match captures {
        Some(groups) => Some(groups_model(groups@)),
        None => None,
    }
}

/// Searches `line` for `pattern` with the `regex` crate: compiles the
/// pattern with `Regex::new`, searches with `Regex::captures`, and copies
/// the text of each group that `Captures::iter` yields, taken with
/// `Match::as_str`. The body is not verified. The contract claims only that
/// the result is a function of the pattern and the line, which it names
/// `regex_captures`; it claims nothing of what the groups hold.
#[verifier::external_body]
fn captures(pattern: &str, line: &str) -> (groups: Option<Vec<Option<String>>>)
    ensures
        captures_model(groups) == regex_captures(pattern@, line@),
{
    let regex = match Regex::new(pattern) {
        Ok(regex) => regex,
        Err(_) => return None,
    };
    let found = regex.captures(line)?;
    Some(found.iter().map(|group| group.map(|part| part.as_str().to_string())).collect())
}

/// The kinds of lines of a mesh description.
#[derive(Copy, Clone, Debug, PartialEq, Eq, Structural)]
pub enum LineKind {
    Vertex,
    Face,
    Texture,
    Other,
}

/// The kind of a line, told by how it starts: `v `, `f ` or `vt `.
pub open spec fn line_kind(line: Seq<char>) -> LineKind {
    if line.len() >= 2 && line[0] == 'v' && line[1] == ' ' {
        LineKind::Vertex
    } else if line.len() >= 2 && line[0] == 'f' && line[1] == ' ' {
        LineKind::Face
    } else if line.len() >= 3 && line[0] == 'v' && line[1] == 't' && line[2] == ' ' {
        LineKind::Texture
    } else {
        LineKind::Other
    }
}

pub fn kind_of_line(line: &str) -> (kind: LineKind)
    ensures
        kind == line_kind(line@),
{
    let length: usize = line.unicode_len();
    if length < 2 {
        return LineKind::Other;
    }
    let first: char = line.get_char(0);
    let second: char = line.get_char(1);
    if first == 'v' && second == ' ' {
        LineKind::Vertex
    } else if first == 'f' && second == ' ' {
        LineKind::Face
    } else if length >= 3 && first == 'v' && second == 't' && line.get_char(2) == ' ' {
        LineKind::Texture
    } else {
        LineKind::Other
    }
}

pub open spec fn is_digit(c: char) -> bool {
    '0' <= c <= '9'
}

pub open spec fn all_digits(text: Seq<char>) -> bool {
    forall|i: int| 0 <= i < text.len() ==> is_digit(#[trigger] text[i])
}

/// The number that decimal digits stand for.
pub open spec fn digits_value(text: Seq<char>) -> nat
    decreases text.len(),
{
    if text.len() == 0 {
        0
    } else {
        digits_value(text.drop_last()) * 10 + (text.last() as nat - '0' as nat) as nat
    }
}

/// The index that `text` stands for. A mesh description counts from 1 and
/// writes in decimal; the index counts from 0. Text that is empty, holds
/// anything but digits, or stands for 0 or for more than an index can be,
/// stands for no index.
pub open spec fn index_of(text: Seq<char>) -> Option<usize> {
    if text.len() > 0 && all_digits(text) && 1 <= digits_value(text) <= usize::MAX {
        Some((digits_value(text) - 1) as usize)
    } else {
        None
    }
}

/// More digits stand for no smaller a number.
proof fn lemma_digits_grow(text: Seq<char>, length: int)
    requires
        all_digits(text),
        0 <= length <= text.len(),
    ensures
        digits_value(text.subrange(0, length)) <= digits_value(text),
    decreases text.len() - length,
{
    if length < text.len() {
        let longer = text.subrange(0, length + 1);
        assert(longer.drop_last() =~= text.subrange(0, length));
        assert(is_digit(text[length]));
        assert(longer.last() == text[length]);
        lemma_digits_grow(text, length + 1);
    } else {
        assert(text.subrange(0, length) =~= text);
    }
}

/// Reads a 1-based decimal index and gives it 0-based.
pub fn parse_index(text: &str) -> (index: Option<usize>)
    ensures
        index == index_of(text@),
{
    let length: usize = text.unicode_len();
    if length == 0 {
        return None;
    }
    let mut value: usize = 0;
    let mut i: usize = 0;
    while i < length
        invariant
            length == text@.len(),
            i <= length,
            all_digits(text@.subrange(0, i as int)),
            value == digits_value(text@.subrange(0, i as int)),
        decreases length - i,
    {
        let c: char = text.get_char(i);
        let ghost longer = text@.subrange(0, i + 1);
        assert(longer.drop_last() =~= text@.subrange(0, i as int));
        assert(longer.last() == c);
        if !(c >= '0' && c <= '9') {
            assert(!is_digit(text@[i as int]));
            return None;
        }
        let digit: usize = (c as u32 - '0' as u32) as usize;
        assert(all_digits(longer)) by {
            assert forall|j: int| 0 <= j < longer.len() implies is_digit(#[trigger] longer[j]) by {
                if j < i {
                    assert(longer[j] == text@.subrange(0, i as int)[j]);
                }
            }
        }
        if value > (usize::MAX - digit) / 10 {
            proof {
                if all_digits(text@) {
                    lemma_digits_grow(text@, i + 1);
                }
            }
            return None;
        }
        value = value * 10 + digit;
        i += 1;
    }
    assert(text@.subrange(0, length as int) =~= text@);
    if value == 0 {
        None
    } else {
        Some(value - 1)
    }
}

/// A vertex as a mesh description writes it: the text of its three coordinates.
#[derive(Debug)]
pub struct Vertex {
    pub x: String,
    pub y: String,
    pub z: String,
}

/// A texture coordinate as a mesh description writes it: the text of its two numbers.
#[derive(Debug)]
pub struct TextureCoordinate {
    pub u: String,
    pub v: String,
}

/// One triangle of a mesh: for each corner, the index of its vertex and the
/// index of its texture coordinate.
#[derive(Debug, Clone, Copy)]
pub struct Face {
    pub vertices: [usize; 3],
    pub textures: [usize; 3],
}

pub struct VertexModel {
    pub x: Seq<char>,
    pub y: Seq<char>,
    pub z: Seq<char>,
}

pub struct CoordinateModel {
    pub u: Seq<char>,
    pub v: Seq<char>,
}

pub struct FaceModel {
    pub vertices: Seq<usize>,
    pub textures: Seq<usize>,
}

impl View for Vertex {
    type V = VertexModel;

    open spec fn view(&self) -> VertexModel {
        VertexModel { x: self.x@, y: self.y@, z: self.z@ }
    }
}

impl View for TextureCoordinate {
    type V = CoordinateModel;

    open spec fn view(&self) -> CoordinateModel {
        CoordinateModel { u: self.u@, v: self.v@ }
    }
}

impl View for Face {
    type V = FaceModel;

    open spec fn view(&self) -> FaceModel {
        FaceModel { vertices: self.vertices@, textures: self.textures@ }
    }
}

/// What a line of a mesh description says.
#[derive(Debug)]
pub enum MeshLine {
    Vertex(Vertex),
    Texture(TextureCoordinate),
    Face(Face),
    /// A line of another kind.
    Other,
    /// A vertex, texture or face line that does not say what such a line must.
    Malformed,
}

pub enum MeshLineModel {
    Vertex(VertexModel),
    Texture(CoordinateModel),
    Face(FaceModel),
    Other,
    Malformed,
}

impl View for MeshLine {
    type V = MeshLineModel;

    open spec fn view(&self) -> MeshLineModel {
        match *self {
            MeshLine::Vertex(vertex) => MeshLineModel::Vertex(vertex@),
            MeshLine::Texture(coordinate) => MeshLineModel::Texture(coordinate@),
            MeshLine::Face(face) => MeshLineModel::Face(face@),
            MeshLine::Other => MeshLineModel::Other,
            MeshLine::Malformed => MeshLineModel::Malformed,
        }
    }
}

/// All of the `count` groups after the whole match took part in it.
pub open spec fn has_groups(groups: Seq<Option<Seq<char>>>, count: int) -> bool {
    groups.len() == count + 1 && forall|i: int| 1 <= i <= count ==> (#[trigger] groups[i]) is Some
}

/// What a vertex line says, given what the vertex pattern found in it.
pub open spec fn vertex_of(found: Option<Seq<Option<Seq<char>>>>) -> MeshLineModel {
    match found {
        Some(groups) => if has_groups(groups, 3) {
            MeshLineModel::Vertex(
                VertexModel { x: groups[1]->Some_0, y: groups[2]->Some_0, z: groups[3]->Some_0 },
            )
        } else {
            MeshLineModel::Malformed
        },
        None => MeshLineModel::Malformed,
    }
}

/// What a texture coordinate line says, given what the texture pattern
/// found in it.
pub open spec fn texture_of(found: Option<Seq<Option<Seq<char>>>>) -> MeshLineModel {
    match found {
        Some(groups) => if has_groups(groups, 2) {
            MeshLineModel::Texture(CoordinateModel { u: groups[1]->Some_0, v: groups[2]->Some_0 })
        } else {
            MeshLineModel::Malformed
        },
        None => MeshLineModel::Malformed,
    }
}

/// What a face line says, given what the face pattern found in it: the
/// groups are the vertex index and the texture index of each corner in turn,
/// and each must stand for an index.
pub open spec fn face_of(found: Option<Seq<Option<Seq<char>>>>) -> MeshLineModel {
    match found {
        Some(groups) => if has_groups(groups, 6) && forall|i: int|
            1 <= i <= 6 ==> index_of((#[trigger] groups[i])->Some_0) is Some {
            MeshLineModel::Face(
                FaceModel {
                    vertices: seq![
                        index_of(groups[1]->Some_0)->Some_0,
                        index_of(groups[3]->Some_0)->Some_0,
                        index_of(groups[5]->Some_0)->Some_0,
                    ],
                    textures: seq![
                        index_of(groups[2]->Some_0)->Some_0,
                        index_of(groups[4]->Some_0)->Some_0,
                        index_of(groups[6]->Some_0)->Some_0,
                    ],
                },
            )
        } else {
            MeshLineModel::Malformed
        },
        None => MeshLineModel::Malformed,
    }
}

/// The text of group `i`, if the group took part in the match.
fn group_text(groups: &Vec<Option<String>>, i: usize) -> (text: Option<&str>)
    ensures
        match text {
            Some(text) => i < groups@.len() && groups_model(groups@)[i as int] == Some(text@),
            None => i >= groups@.len() || groups@[i as int] is None,
        },
{
    if i >= groups.len() {
        return None;
    }
    match &groups[i] {
        Some(group) => Some(group.as_str()),
        None => None,
    }
}

/// What a vertex line says, given what the vertex pattern found in it.
pub fn vertex_from_captures(found: &Option<Vec<Option<String>>>) -> (parsed: MeshLine)
    ensures
        parsed@ == vertex_of(captures_model(*found)),
{
    match found {
        Some(groups) => {
            if groups.len() != 4 {
                return MeshLine::Malformed;
            }
            match (group_text(groups, 1), group_text(groups, 2), group_text(groups, 3)) {
                (Some(x), Some(y), Some(z)) => MeshLine::Vertex(
                    Vertex { x: x.to_owned(), y: y.to_owned(), z: z.to_owned() },
                ),
                _ => {
                    assert(!has_groups(groups_model(groups@), 3)) by {
                        let model = groups_model(groups@);
                        assert(model[1] is None || model[2] is None || model[3] is None);
                    }
                    MeshLine::Malformed
                },
            }
        },
        None => MeshLine::Malformed,
    }
}

/// What a texture coordinate line says, given what the texture pattern
/// found in it.
pub fn texture_from_captures(found: &Option<Vec<Option<String>>>) -> (parsed: MeshLine)
    ensures
        parsed@ == texture_of(captures_model(*found)),
{
    match found {
        Some(groups) => {
            if groups.len() != 3 {
                return MeshLine::Malformed;
            }
            match (group_text(groups, 1), group_text(groups, 2)) {
                (Some(u), Some(v)) => MeshLine::Texture(
                    TextureCoordinate { u: u.to_owned(), v: v.to_owned() },
                ),
                _ => {
                    assert(!has_groups(groups_model(groups@), 2)) by {
                        let model = groups_model(groups@);
                        assert(model[1] is None || model[2] is None);
                    }
                    MeshLine::Malformed
                },
            }
        },
        None => MeshLine::Malformed,
    }
}

/// The index that group `i` stands for.
fn group_index(groups: &Vec<Option<String>>, i: usize) -> (index: Option<usize>)
    requires
        i < groups@.len(),
    ensures
        index == match groups_model(groups@)[i as int] {
            Some(text) => index_of(text),
            None => None,
        },
{
    match group_text(groups, i) {
        Some(text) => parse_index(text),
        None => None,
    }
}

/// What a face line says, given what the face pattern found in it.
pub fn face_from_captures(found: &Option<Vec<Option<String>>>) -> (parsed: MeshLine)
    ensures
        parsed@ == face_of(captures_model(*found)),
{
    match found {
        Some(groups) => {
            if groups.len() != 7 {
                return MeshLine::Malformed;
            }
            let ghost model = groups_model(groups@);
            let v0 = group_index(groups, 1);
            let t0 = group_index(groups, 2);
            let v1 = group_index(groups, 3);
            let t1 = group_index(groups, 4);
            let v2 = group_index(groups, 5);
            let t2 = group_index(groups, 6);
            match (v0, t0, v1, t1, v2, t2) {
                (Some(v0), Some(t0), Some(v1), Some(t1), Some(v2), Some(t2)) => {
                    let face = Face { vertices: [v0, v1, v2], textures: [t0, t1, t2] };
                    assert(face.vertices@ =~= seq![v0, v1, v2]);
                    assert(face.textures@ =~= seq![t0, t1, t2]);
                    assert(has_groups(model, 6));
                    MeshLine::Face(face)
                },
                _ => {
                    assert(face_of(Some(model)) == MeshLineModel::Malformed) by {
                        assert(model[1] is None || model[2] is None || model[3] is None || model[4]
                            is None || model[5] is None || model[6] is None || index_of(
                            model[1]->Some_0,
                        ) is None || index_of(model[2]->Some_0) is None || index_of(
                            model[3]->Some_0,
                        ) is None || index_of(model[4]->Some_0) is None || index_of(
                            model[5]->Some_0,
                        ) is None || index_of(model[6]->Some_0) is None);
                    }
                    MeshLine::Malformed
                },
            }
        },
        None => MeshLine::Malformed,
    }
}

/// What a line says, given what the pattern of its kind finds in it.
pub open spec fn mesh_line(line: Seq<char>) -> MeshLineModel {
    match line_kind(line) {
        LineKind::Vertex => vertex_of(regex_captures(VERTEX_PATTERN@, line)),
        LineKind::Face => face_of(regex_captures(FACE_PATTERN@, line)),
        LineKind::Texture => texture_of(regex_captures(TEXTURE_PATTERN@, line)),
        LineKind::Other => MeshLineModel::Other,
    }
}

/// Reads one line of a mesh description.
pub fn parse_line(line: &str) -> (parsed: MeshLine)
    ensures
        parsed@ == mesh_line(line@),
{
    match kind_of_line(line) {
        LineKind::Vertex => vertex_from_captures(&captures(VERTEX_PATTERN, line)),
        LineKind::Face => face_from_captures(&captures(FACE_PATTERN, line)),
        LineKind::Texture => texture_from_captures(&captures(TEXTURE_PATTERN, line)),
        LineKind::Other => MeshLine::Other,
    }
}

/// What a mesh is: its vertices, its faces and its texture coordinates, each
/// in the order of the description.
pub struct MeshModel {
    pub vertices: Seq<VertexModel>,
    pub faces: Seq<FaceModel>,
    pub textures: Seq<CoordinateModel>,
}

/// The mesh that the lines of a description stand for, or the index of the
/// first malformed line.
pub open spec fn mesh_of(lines: Seq<Seq<char>>) -> Result<MeshModel, int>
    decreases lines.len(),
{
    if lines.len() == 0 {
        Ok(MeshModel { vertices: Seq::empty(), faces: Seq::empty(), textures: Seq::empty() })
    } else {
        match mesh_of(lines.drop_last()) {
            Err(index) => Err(index),
            Ok(mesh) => match mesh_line(lines.last()) {
                MeshLineModel::Vertex(vertex) => Ok(
                    MeshModel { vertices: mesh.vertices.push(vertex), ..mesh },
                ),
                MeshLineModel::Texture(coordinate) => Ok(
                    MeshModel { textures: mesh.textures.push(coordinate), ..mesh },
                ),
                MeshLineModel::Face(face) => Ok(MeshModel { faces: mesh.faces.push(face), ..mesh }),
                MeshLineModel::Other => Ok(mesh),
                MeshLineModel::Malformed => Err(lines.len() - 1),
            },
        }
    }
}

/// The texts of lines as sequences of characters.
pub open spec fn line_texts(lines: Seq<String>) -> Seq<Seq<char>> {
    Seq::new(lines.len(), |i: int| lines[i]@)
}

/// A mesh read from a Wavefront description.
#[derive(Debug)]
pub struct WaveFrontFile {
    vertices: Vec<Vertex>,
    faces: Vec<Face>,
    textures: Vec<TextureCoordinate>,
}

impl View for WaveFrontFile {
    type V = MeshModel;

    closed spec fn view(&self) -> MeshModel {
        MeshModel {
            vertices: Seq::new(self.vertices@.len(), |i: int| self.vertices@[i]@),
            faces: Seq::new(self.faces@.len(), |i: int| self.faces@[i]@),
            textures: Seq::new(self.textures@.len(), |i: int| self.textures@[i]@),
        }
    }
}

impl WaveFrontFile {
    /// Reads a mesh from the lines of its description. A line that is no
    /// vertex, texture coordinate or face is passed over. A malformed line
    /// ends the reading, and its index is the error.
    pub fn from_lines(lines: &Vec<String>) -> (result: Result<WaveFrontFile, usize>)
        ensures
            match result {
                Ok(mesh) => mesh_of(line_texts(lines@)) == Ok::<MeshModel, int>(mesh@),
                Err(index) => mesh_of(line_texts(lines@)) == Err::<MeshModel, int>(index as int),
            },
    {
        let mut mesh = WaveFrontFile {
            vertices: Vec::new(),
            faces: Vec::new(),
            textures: Vec::new(),
        };
        let ghost texts = line_texts(lines@);
        assert(mesh@.vertices =~= Seq::empty() && mesh@.faces =~= Seq::empty() && mesh@.textures
            =~= Seq::empty());
        assert(texts.subrange(0, 0) =~= Seq::empty());
        let mut i: usize = 0;
        while i < lines.len()
            invariant
                texts == line_texts(lines@),
                i <= lines@.len(),
                mesh_of(texts.subrange(0, i as int)) == Ok::<MeshModel, int>(mesh@),
            decreases lines@.len() - i,
        {
            let ghost before = mesh@;
            let ghost longer = texts.subrange(0, i + 1);
            assert(longer.drop_last() =~= texts.subrange(0, i as int));
            assert(longer.last() == lines@[i as int]@);
            match parse_line(lines[i].as_str()) {
                MeshLine::Vertex(vertex) => {
                    mesh.vertices.push(vertex);
                    assert(mesh@.vertices =~= before.vertices.push(vertex@));
                    assert(mesh@.faces =~= before.faces);
                    assert(mesh@.textures =~= before.textures);
                },
                MeshLine::Texture(coordinate) => {
                    mesh.textures.push(coordinate);
                    assert(mesh@.textures =~= before.textures.push(coordinate@));
                    assert(mesh@.faces =~= before.faces);
                    assert(mesh@.vertices =~= before.vertices);
                },
                MeshLine::Face(face) => {
                    mesh.faces.push(face);
                    assert(mesh@.faces =~= before.faces.push(face@));
                    assert(mesh@.vertices =~= before.vertices);
                    assert(mesh@.textures =~= before.textures);
                },
                MeshLine::Other => {},
                MeshLine::Malformed => {
                    proof {
                        lemma_malformed_stays(texts, i as int);
                    }
                    return Err(i);
                },
            }
            i += 1;
        }
        assert(texts.subrange(0, i as int) =~= texts);
        Ok(mesh)
    }

    pub fn vertex_count(&self) -> (count: usize)
        ensures
            count == self@.vertices.len(),
    {
        self.vertices.len()
    }

    pub fn face_count(&self) -> (count: usize)
        ensures
            count == self@.faces.len(),
    {
        self.faces.len()
    }

    pub fn texture_count(&self) -> (count: usize)
        ensures
            count == self@.textures.len(),
    {
        self.textures.len()
    }

    pub fn get_vertex(&self, idx: usize) -> (vertex: &Vertex)
        requires
            idx < self@.vertices.len(),
        ensures
            vertex@ == self@.vertices[idx as int],
    {
        &self.vertices[idx]
    }

    pub fn get_face(&self, idx: usize) -> (face: &Face)
        requires
            idx < self@.faces.len(),
        ensures
            face@ == self@.faces[idx as int],
    {
        &self.faces[idx]
    }

    pub fn get_texture(&self, idx: usize) -> (coordinate: &TextureCoordinate)
        requires
            idx < self@.textures.len(),
        ensures
            coordinate@ == self@.textures[idx as int],
    {
        &self.textures[idx]
    }
}

/// Once a line is malformed, the description stands for no mesh, however
/// many lines follow: the error is the index of the first malformed line.
proof fn lemma_malformed_stays(lines: Seq<Seq<char>>, index: int)
    requires
        0 <= index < lines.len(),
        mesh_of(lines.subrange(0, index)) is Ok,
        mesh_line(lines[index]) is Malformed,
    ensures
        mesh_of(lines) == Err::<MeshModel, int>(index),
{
    let part = lines.subrange(0, index + 1);
    assert(part.drop_last() =~= lines.subrange(0, index));
    assert(part.last() == lines[index]);
    assert(mesh_of(part) == Err::<MeshModel, int>(index));
    lemma_error_of_part(lines, index + 1, index);
}

/// An error in the first `length` lines is the error of all the lines.
proof fn lemma_error_of_part(lines: Seq<Seq<char>>, length: int, index: int)
    requires
        0 <= length <= lines.len(),
        mesh_of(lines.subrange(0, length)) == Err::<MeshModel, int>(index),
    ensures
        mesh_of(lines) == Err::<MeshModel, int>(index),
    decreases lines.len() - length,
{
    if length < lines.len() {
        let longer = lines.subrange(0, length + 1);
        assert(longer.drop_last() =~= lines.subrange(0, length));
        lemma_error_of_part(lines, length + 1, index);
    } else {
        assert(lines.subrange(0, length) =~= lines);
    }
}

} // verus!
