//! Reading geometry text: the statements that fill the attribute pools,
//! list faces, name a material library and select materials.

use vstd::prelude::*;
use vstd::utf8::valid_utf8;
use crate::encoding::is_valid_utf8;
use crate::error::LoadError;
use crate::face::{all_face_points, face_points_of, face_views, parse_face, Face, FacePoint};
use crate::library::{load_material_file, materials_of, MaterialMap};
use crate::material::{material_views, Material, MaterialTable, MaterialView};
use crate::numeral::all_decimal;
use crate::pool::{
    normal_of, normal_views, parse_numbers, texture_of, texture_views, vertex_of, vertex_views,
    Normal, NormalView, Texture, TextureView, Vertex, VertexView,
};
use crate::text::{bytes_eq, split_tokens, tokens_of};

verus! {

/// What the first token of a line of geometry text asks for.
#[derive(Clone, Copy, Debug, PartialEq, Eq, Structural)]
pub enum LineType {
    Vertex,
    Normal,
    Texture,
    Face,
    Comment,
    MaterialReference,
    UseMaterial,
    Unknown,
}

/// The directive `v`.
pub open spec fn word_v() -> Seq<u8> {
    seq!['v' as u8]
}

/// The directive `vt`.
pub open spec fn word_vt() -> Seq<u8> {
    seq!['v' as u8, 't' as u8]
}

/// The directive `vn`.
pub open spec fn word_vn() -> Seq<u8> {
    seq!['v' as u8, 'n' as u8]
}

/// The directive `f`.
pub open spec fn word_f() -> Seq<u8> {
    seq!['f' as u8]
}

/// The directive `#`.
pub open spec fn word_comment() -> Seq<u8> {
    seq!['#' as u8]
}

/// The directive `mtllib`.
pub open spec fn word_mtllib() -> Seq<u8> {
    seq!['m' as u8, 't' as u8, 'l' as u8, 'l' as u8, 'i' as u8, 'b' as u8]
}

/// The directive `usemtl`.
pub open spec fn word_usemtl() -> Seq<u8> {
    seq!['u' as u8, 's' as u8, 'e' as u8, 'm' as u8, 't' as u8, 'l' as u8]
}

/// The kind of line that a first token selects.
pub open spec fn line_type_of(token: Seq<u8>) -> LineType {
    if token == word_v() {
        LineType::Vertex
    } else if token == word_vt() {
        LineType::Texture
    } else if token == word_vn() {
        LineType::Normal
    } else if token == word_f() {
        LineType::Face
    } else if token == word_comment() {
        LineType::Comment
    } else if token == word_mtllib() {
        LineType::MaterialReference
    } else if token == word_usemtl() {
        LineType::UseMaterial
    } else {
        LineType::Unknown
    }
}

/// Tells the kind of a line from its first token.
pub fn classify_line(token: &[u8]) -> (r: LineType)
    ensures
        r == line_type_of(token@),
{
    let v: [u8; 1] = ['v' as u8];
    let vt: [u8; 2] = ['v' as u8, 't' as u8];
    let vn: [u8; 2] = ['v' as u8, 'n' as u8];
    let f: [u8; 1] = ['f' as u8];
    let hash: [u8; 1] = ['#' as u8];
    let mtllib: [u8; 6] = ['m' as u8, 't' as u8, 'l' as u8, 'l' as u8, 'i' as u8, 'b' as u8];
    let usemtl: [u8; 6] = ['u' as u8, 's' as u8, 'e' as u8, 'm' as u8, 't' as u8, 'l' as u8];
    proof {
        assert(v@ =~= word_v());
        assert(vt@ =~= word_vt());
        assert(vn@ =~= word_vn());
        assert(f@ =~= word_f());
        assert(hash@ =~= word_comment());
        assert(mtllib@ =~= word_mtllib());
        assert(usemtl@ =~= word_usemtl());
    }
    if bytes_eq(token, v.as_slice()) {
        LineType::Vertex
    } else if bytes_eq(token, vt.as_slice()) {
        LineType::Texture
    } else if bytes_eq(token, vn.as_slice()) {
        LineType::Normal
    } else if bytes_eq(token, f.as_slice()) {
        LineType::Face
    } else if bytes_eq(token, hash.as_slice()) {
        LineType::Comment
    } else if bytes_eq(token, mtllib.as_slice()) {
        LineType::MaterialReference
    } else if bytes_eq(token, usemtl.as_slice()) {
        LineType::UseMaterial
    } else {
        LineType::Unknown
    }
}

/// A material library that lies beside the geometry: the name of its file
/// and what the file holds.
pub struct LibraryFile {
    pub name: Vec<u8>,
    pub contents: Vec<u8>,
}

/// What a library file is.
pub struct LibraryFileView {
    pub name: Seq<u8>,
    pub contents: Seq<u8>,
}

impl View for LibraryFile {
    type V = LibraryFileView;

    open spec fn view(&self) -> LibraryFileView {
        LibraryFileView { name: self.name@, contents: self.contents@ }
    }
}

/// The contents of library files, one for one.
pub open spec fn library_views(v: Seq<LibraryFile>) -> Seq<LibraryFileView> {
    Seq::new(v.len(), |i: int| v[i]@)
}

/// What the first file of the given name from place `i` on holds.
pub open spec fn find_library(files: Seq<LibraryFileView>, name: Seq<u8>, i: int) -> Option<
    Seq<u8>,
>
    decreases files.len() - i,
{
    if i < 0 || i >= files.len() {
        None
    } else if files[i].name == name {
        Some(files[i].contents)
    } else {
        find_library(files, name, i + 1)
    }
}

/// The three attribute pools.
#[verifier::ext_equal]
pub struct PoolsView {
    pub vertices: Seq<VertexView>,
    pub normals: Seq<NormalView>,
    pub textures: Seq<TextureView>,
}

/// Where the reading of geometry text stands.
#[verifier::ext_equal]
pub struct GeometryView {
    /// The attributes read so far, in the order of the text.
    pub pools: PoolsView,
    /// The faces read so far.
    pub faces: Seq<Seq<FacePoint>>,
    /// The materials of the library named last that are not yet in use.
    pub table: MaterialMap,
    /// The materials in use, in the order in which the text selected them.
    pub materials: Seq<MaterialView>,
    /// For each selection made after a face: three times the number of
    /// faces before it.
    pub material_indices: Seq<nat>,
}

/// The state before the first line.
pub open spec fn geometry_start() -> GeometryView {
    GeometryView {
        pools: PoolsView {
            vertices: Seq::empty(),
            normals: Seq::empty(),
            textures: Seq::empty(),
        },
        faces: Seq::empty(),
        table: Map::empty(),
        materials: Seq::empty(),
        material_indices: Seq::empty(),
    }
}

/// The boundaries after a material was selected: one more, at three times
/// the number of faces, where there is a face; else the same.
pub open spec fn boundaries_after_selection(state: GeometryView) -> Seq<nat> {
    if state.faces.len() > 0 {
        state.material_indices.push(3 * state.faces.len())
    } else {
        state.material_indices
    }
}

/// What a `v` line does.
pub open spec fn vertex_step(state: GeometryView, operands: Seq<Seq<u8>>) -> Result<
    GeometryView,
    LoadError,
> {
    if all_decimal(operands) && vertex_of(operands) is Some {
        Ok(
            GeometryView {
                pools: PoolsView {
                    vertices: state.pools.vertices.push(vertex_of(operands).unwrap()),
                    ..state.pools
                },
                ..state
            },
        )
    } else {
        Err(LoadError::MalformedData)
    }
}

/// What a `vn` line does.
pub open spec fn normal_step(state: GeometryView, operands: Seq<Seq<u8>>) -> Result<
    GeometryView,
    LoadError,
> {
    if all_decimal(operands) && normal_of(operands) is Some {
        Ok(
            GeometryView {
                pools: PoolsView {
                    normals: state.pools.normals.push(normal_of(operands).unwrap()),
                    ..state.pools
                },
                ..state
            },
        )
    } else {
        Err(LoadError::MalformedData)
    }
}

/// What a `vt` line does.
pub open spec fn texture_step(state: GeometryView, operands: Seq<Seq<u8>>) -> Result<
    GeometryView,
    LoadError,
> {
    if all_decimal(operands) && texture_of(operands) is Some {
        Ok(
            GeometryView {
                pools: PoolsView {
                    textures: state.pools.textures.push(texture_of(operands).unwrap()),
                    ..state.pools
                },
                ..state
            },
        )
    } else {
        Err(LoadError::MalformedData)
    }
}

/// What an `f` line does.
pub open spec fn face_step(state: GeometryView, operands: Seq<Seq<u8>>) -> Result<
    GeometryView,
    LoadError,
> {
    if all_face_points(operands) {
        Ok(GeometryView { faces: state.faces.push(face_points_of(operands)), ..state })
    } else {
        Err(LoadError::MalformedData)
    }
}

/// What an `mtllib` line does: the table of the library that the first
/// operand names takes the place of the current table.
pub open spec fn library_reference_step(
    state: GeometryView,
    operands: Seq<Seq<u8>>,
    files: Seq<LibraryFileView>,
) -> Result<GeometryView, LoadError> {
    if operands.len() == 0 {
        Err(LoadError::MalformedData)
    } else {
        match find_library(files, operands[0], 0) {
            None => Err(LoadError::File),
            Some(text) => match materials_of(text) {
                Ok(table) => Ok(GeometryView { table, ..state }),
                Err(e) => Err(e),
            },
        }
    }
}

/// What a `usemtl` line does: the material that the first operand names
/// moves from the table to the materials in use, and a boundary is set
/// where a face came before.
pub open spec fn selection_step(state: GeometryView, operands: Seq<Seq<u8>>) -> Result<
    GeometryView,
    LoadError,
> {
    if operands.len() == 0 || !state.table.contains_key(operands[0]) {
        Err(LoadError::MalformedData)
    } else {
        Ok(
            GeometryView {
                table: state.table.remove(operands[0]),
                materials: state.materials.push(state.table[operands[0]]),
                material_indices: boundaries_after_selection(state),
                ..state
            },
        )
    }
}

/// What one line does to the state.
///
/// A line that is not valid UTF-8 cannot be read. A line without tokens
/// changes nothing. Otherwise the first token decides; the tokens after it
/// are the operands. A comment and a line of unknown kind change nothing.
pub open spec fn geometry_step(
    state: GeometryView,
    line: Seq<u8>,
    files: Seq<LibraryFileView>,
) -> Result<GeometryView, LoadError> {
    let tokens = tokens_of(line);
    let operands = tokens.skip(1);
    if !valid_utf8(line) {
        Err(LoadError::LineRead)
    } else if tokens.len() == 0 {
        Ok(state)
    } else {
        match line_type_of(tokens[0]) {
            LineType::Vertex => vertex_step(state, operands),
            LineType::Normal => normal_step(state, operands),
            LineType::Texture => texture_step(state, operands),
            LineType::Face => face_step(state, operands),
            LineType::MaterialReference => library_reference_step(state, operands, files),
            LineType::UseMaterial => selection_step(state, operands),
            LineType::Comment => Ok(state),
            LineType::Unknown => Ok(state),
        }
    }
}

/// What the lines do to the state, one after the other, up to the first
/// that fails.
pub open spec fn geometry_run(
    state: GeometryView,
    lines: Seq<Seq<u8>>,
    files: Seq<LibraryFileView>,
) -> Result<GeometryView, LoadError>
    decreases lines.len(),
{
    if lines.len() == 0 {
        Ok(state)
    } else {
        match geometry_step(state, lines[0], files) {
            Ok(next) => geometry_run(next, lines.drop_first(), files),
            Err(e) => Err(e),
        }
    }
}

/// The state of a reading in progress.
pub struct Geometry {
    pub vertices: Vec<Vertex>,
    pub normals: Vec<Normal>,
    pub textures: Vec<Texture>,
    pub faces: Vec<Face>,
    pub table: MaterialTable,
    pub materials: Vec<Material>,
    pub material_indices: Vec<usize>,
}

/// Offsets as numbers, one for one.
pub open spec fn offsets(v: Seq<usize>) -> Seq<nat> {
    Seq::new(v.len(), |i: int| v[i] as nat)
}

impl View for Geometry {
    type V = GeometryView;

    open spec fn view(&self) -> GeometryView {
        GeometryView {
            pools: PoolsView {
                vertices: vertex_views(self.vertices@),
                normals: normal_views(self.normals@),
                textures: texture_views(self.textures@),
            },
            faces: face_views(self.faces@),
            table: self.table@,
            materials: material_views(self.materials@),
            material_indices: offsets(self.material_indices@),
        }
    }
}

impl Geometry {
    /// The state before the first line.
    pub fn new() -> (r: Geometry)
        ensures
            r@ == geometry_start(),
    {
        let r = Geometry {
            vertices: Vec::new(),
            normals: Vec::new(),
            textures: Vec::new(),
            faces: Vec::new(),
            table: MaterialTable::new(),
            materials: Vec::new(),
            material_indices: Vec::new(),
        };
        proof {
            assert(r@.pools.vertices =~= Seq::empty());
            assert(r@.pools.normals =~= Seq::empty());
            assert(r@.pools.textures =~= Seq::empty());
            assert(r@.faces =~= Seq::empty());
            assert(r@.materials =~= Seq::empty());
            assert(r@.material_indices =~= Seq::empty());
        }
        r
    }
}

/// Looks a library up by the name of its file.
pub fn lookup_library<'a>(libraries: &'a Vec<LibraryFile>, name: &[u8]) -> (r: Option<&'a [u8]>)
    ensures
        match r {
            Some(text) => find_library(library_views(libraries@), name@, 0) == Some(text@),
            None => find_library(library_views(libraries@), name@, 0) is None,
        },
{
    let n: usize = libraries.len();
    let ghost files = library_views(libraries@);
    let mut i: usize = 0;
    while i < n
        invariant
            i <= n,
            n == libraries.len(),
            files == library_views(libraries@),
            find_library(files, name@, 0) == find_library(files, name@, i as int),
        decreases n - i,
    {
        assert(files[i as int] == libraries@[i as int]@);
        if bytes_eq(libraries[i].name.as_slice(), name) {
            return Some(libraries[i].contents.as_slice());
        }
        i += 1;
    }
    None
}

/// Applies one line of geometry text.
///
/// The result is what [`geometry_step`] defines for the state, the line
/// and the libraries at hand.
pub fn geometry_line(state: Geometry, line: &[u8], libraries: &Vec<LibraryFile>) -> (r: Result<
    Geometry,
    LoadError,
>)
    requires
        3 * state.faces@.len() <= usize::MAX,
    ensures
        match r {
            Ok(next) => geometry_step(state@, line@, library_views(libraries@)) == Ok::<
                GeometryView,
                LoadError,
            >(next@) && next.faces@.len() <= state.faces@.len() + 1,
            Err(e) => geometry_step(state@, line@, library_views(libraries@)) == Err::<
                GeometryView,
                LoadError,
            >(e),
        },
{
    if !is_valid_utf8(line) {
        return Err(LoadError::LineRead);
    }
    let tokens = split_tokens(line);
    if tokens.len() == 0 {
        return Ok(state);
    }
    let ghost operands = tokens_of(line@).skip(1);
    let ghost before = state@;
    let mut state = state;
    assert(tokens@[0]@ == tokens_of(line@)[0]);
    match classify_line(tokens[0]) {
        LineType::Vertex => {
            let numbers = match parse_numbers(&tokens, 1) {
                Ok(numbers) => numbers,
                Err(e) => {
                    return Err(e);
                },
            };
            match Vertex::from_numbers(numbers) {
                Ok(vertex) => {
                    state.vertices.push(vertex);
                    proof {
                        assert(state@.pools.vertices =~= before.pools.vertices.push(vertex@));
                    }
                    Ok(state)
                },
                Err(e) => Err(e),
            }
        },
        LineType::Normal => {
            let numbers = match parse_numbers(&tokens, 1) {
                Ok(numbers) => numbers,
                Err(e) => {
                    return Err(e);
                },
            };
            match Normal::from_numbers(numbers) {
                Ok(normal) => {
                    state.normals.push(normal);
                    proof {
                        assert(state@.pools.normals =~= before.pools.normals.push(normal@));
                    }
                    Ok(state)
                },
                Err(e) => Err(e),
            }
        },
        LineType::Texture => {
            let numbers = match parse_numbers(&tokens, 1) {
                Ok(numbers) => numbers,
                Err(e) => {
                    return Err(e);
                },
            };
            match Texture::from_numbers(numbers) {
                Ok(texture) => {
                    state.textures.push(texture);
                    proof {
                        assert(state@.pools.textures =~= before.pools.textures.push(texture@));
                    }
                    Ok(state)
                },
                Err(e) => Err(e),
            }
        },
        LineType::Face => {
            match parse_face(&tokens, 1) {
                Some(face) => {
                    state.faces.push(face);
                    proof {
                        assert(state@.faces =~= before.faces.push(face@));
                    }
                    Ok(state)
                },
                None => Err(LoadError::MalformedData),
            }
        },
        LineType::MaterialReference => {
            if tokens.len() < 2 {
                return Err(LoadError::MalformedData);
            }
            assert(tokens@[1]@ == operands[0]);
            match lookup_library(libraries, tokens[1]) {
                None => Err(LoadError::File),
                Some(text) => match load_material_file(text) {
                    Ok(table) => {
                        state.table = table;
                        Ok(state)
                    },
                    Err(e) => Err(e),
                },
            }
        },
        LineType::UseMaterial => {
            if tokens.len() < 2 {
                return Err(LoadError::MalformedData);
            }
            assert(tokens@[1]@ == operands[0]);
            match state.table.remove(tokens[1]) {
                Some(material) => {
                    state.materials.push(material);
                    if state.faces.len() > 0 {
                        state.material_indices.push(state.faces.len() * 3);
                    }
                    proof {
                        assert(state@.materials =~= before.materials.push(material@));
                        assert(state@.material_indices =~= boundaries_after_selection(before));
                    }
                    Ok(state)
                },
                None => Err(LoadError::MalformedData),
            }
        },
        LineType::Comment => Ok(state),
        LineType::Unknown => Ok(state),
    }
}

} // verus!
