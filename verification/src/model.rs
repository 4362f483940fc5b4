//! The model: the flattened vertex sequence of a geometry text, the
//! materials it uses, and where each material's run of vertices ends.

use vstd::prelude::*;
use vstd::slice::{slice_subrange, slice_to_vec};
use crate::error::LoadError;
use crate::face::{face_views, Face, FacePoint};
use crate::geometry::{
    geometry_line, geometry_run, geometry_start, library_views, line_type_of, offsets, Geometry,
    GeometryView, LibraryFile, LibraryFileView, LineType, PoolsView,
};
use crate::material::{material_views, Material, MaterialView};
use crate::numeral::{zero_text, Numeral};
use crate::pool::{
    normal_views, numeral_views, texture_views, vertex_views, Normal, Texture, Vertex,
};
use crate::text::{find_line_end, lines_from, lines_of, split_tokens, tokens_of};

verus! {

/// Whether the indices of a corner lie in their pools: the position from 1
/// to the number of positions; the normal and the texture coordinate up to
/// the size of their pool, 0 for none.
pub open spec fn resolvable(point: FacePoint, pools: PoolsView) -> bool {
    &&& 1 <= point.vertex_index <= pools.vertices.len()
    &&& point.normal_index <= pools.normals.len()
    &&& point.texture_index <= pools.textures.len()
}

/// The numbers of the normal of a corner; none where it has no normal.
pub open spec fn normal_part(point: FacePoint, pools: PoolsView) -> Seq<Seq<u8>> {
    if point.normal_index > 0 {
        let n = pools.normals[point.normal_index - 1];
        seq![n.x, n.y, n.z]
    } else {
        Seq::empty()
    }
}

/// The numbers of the texture coordinate of a corner; `0.0` twice where it
/// has none.
pub open spec fn texture_part(point: FacePoint, pools: PoolsView) -> Seq<Seq<u8>> {
    if point.texture_index > 0 {
        let t = pools.textures[point.texture_index - 1];
        seq![t.x, t.y]
    } else {
        seq![zero_text(), zero_text()]
    }
}

/// The vertex record of a corner: the first three numbers of its position,
/// then its normal, then its texture coordinate.
pub open spec fn point_record(point: FacePoint, pools: PoolsView) -> Seq<Seq<u8>> {
    let v = pools.vertices[point.vertex_index - 1];
    seq![v.x, v.y, v.z] + normal_part(point, pools) + texture_part(point, pools)
}

/// The records of the corners of a face, one after the other.
pub open spec fn face_record(points: Seq<FacePoint>, pools: PoolsView) -> Seq<Seq<u8>>
    decreases points.len(),
{
    if points.len() == 0 {
        Seq::empty()
    } else {
        face_record(points.drop_last(), pools) + point_record(points.last(), pools)
    }
}

/// The records of faces, one after the other.
pub open spec fn faces_record(faces: Seq<Seq<FacePoint>>, pools: PoolsView) -> Seq<Seq<u8>>
    decreases faces.len(),
{
    if faces.len() == 0 {
        Seq::empty()
    } else {
        faces_record(faces.drop_last(), pools) + face_record(faces.last(), pools)
    }
}

/// Whether every corner of a face lies in the pools.
pub open spec fn face_resolvable(points: Seq<FacePoint>, pools: PoolsView) -> bool {
    forall|i: int| 0 <= i < points.len() ==> resolvable(#[trigger] points[i], pools)
}

/// Whether every corner of every face lies in the pools.
pub open spec fn all_resolvable(faces: Seq<Seq<FacePoint>>, pools: PoolsView) -> bool {
    forall|f: int| 0 <= f < faces.len() ==> face_resolvable(#[trigger] faces[f], pools)
}

/// What a model is.
#[verifier::ext_equal]
pub struct ModelView {
    /// The vertex records of all faces, in the order of the text.
    pub vertices: Seq<Seq<u8>>,
    /// The materials in use, in the order in which the text selected them.
    pub materials: Seq<MaterialView>,
    /// Where each material's run ends, counted in vertices of triangles.
    pub material_indices: Seq<nat>,
}

/// A model, ready to be drawn: numbers as the decimal literals of the text.
pub struct Model {
    pub vertices: Vec<Numeral>,
    pub materials: Vec<Material>,
    pub material_indices: Vec<usize>,
}

impl View for Model {
    type V = ModelView;

    open spec fn view(&self) -> ModelView {
        ModelView {
            vertices: numeral_views(self.vertices@),
            materials: material_views(self.materials@),
            material_indices: offsets(self.material_indices@),
        }
    }
}

/// The model at the end of the text. The faces are resolved only now, so
/// a face may refer to what the text states after it. One more boundary
/// closes the last run, at three times the number of faces.
pub open spec fn model_from(state: GeometryView) -> Result<ModelView, LoadError> {
    if all_resolvable(state.faces, state.pools) {
        Ok(
            ModelView {
                vertices: faces_record(state.faces, state.pools),
                materials: state.materials,
                material_indices: state.material_indices.push(3 * state.faces.len()),
            },
        )
    } else {
        Err(LoadError::MalformedData)
    }
}

/// The model that the lines of a geometry text define, with the given
/// library files beside it.
pub open spec fn model_of_lines(lines: Seq<Seq<u8>>, files: Seq<LibraryFileView>) -> Result<
    ModelView,
    LoadError,
> {
    match geometry_run(geometry_start(), lines, files) {
        Ok(state) => model_from(state),
        Err(e) => Err(e),
    }
}

/// The model that a geometry text defines, with the given library files
/// beside it.
pub open spec fn model_of(text: Seq<u8>, files: Seq<LibraryFileView>) -> Result<
    ModelView,
    LoadError,
> {
    model_of_lines(lines_of(text), files)
}

/// The name that a line gives to a material library, where it is an
/// `mtllib` line with an operand.
pub open spec fn library_name_in(line: Seq<u8>) -> Option<Seq<u8>> {
    let tokens = tokens_of(line);
    if tokens.len() >= 2 && line_type_of(tokens[0]) == LineType::MaterialReference {
        Some(tokens[1])
    } else {
        None
    }
}

/// The names of the material libraries that the lines refer to, in order.
pub open spec fn library_names(lines: Seq<Seq<u8>>) -> Seq<Seq<u8>>
    decreases lines.len(),
{
    if lines.len() == 0 {
        Seq::empty()
    } else {
        match library_name_in(lines[0]) {
            Some(name) => seq![name] + library_names(lines.drop_first()),
            None => library_names(lines.drop_first()),
        }
    }
}

/// The contents of byte strings, one for one.
pub open spec fn byte_views(v: Seq<Vec<u8>>) -> Seq<Seq<u8>> {
    Seq::new(v.len(), |i: int| v[i]@)
}

/// The texts of literals laid end to end are the texts of each, laid end to
/// end.
pub proof fn lemma_numeral_views_add(a: Seq<Numeral>, b: Seq<Numeral>)
    ensures
        numeral_views(a + b) == numeral_views(a) + numeral_views(b),
{
    assert(numeral_views(a + b) =~= numeral_views(a) + numeral_views(b));
}

/// Resolves one corner against the pools.
///
/// Succeeds exactly where the corner is [`resolvable`], and then hands out
/// its vertex record. An index of 0 for the normal or the texture
/// coordinate is no error: the record then has no normal, or `0.0` twice
/// for the texture coordinate.
pub fn resolve_point(
    point: FacePoint,
    vertices: &Vec<Vertex>,
    normals: &Vec<Normal>,
    textures: &Vec<Texture>,
) -> (r: Result<Vec<Numeral>, LoadError>)
    ensures
        ({
            let pools = PoolsView {
                vertices: vertex_views(vertices@),
                normals: normal_views(normals@),
                textures: texture_views(textures@),
            };
            match r {
                Ok(record) => resolvable(point, pools) && numeral_views(record@) == point_record(
                    point,
                    pools,
                ),
                Err(e) => !resolvable(point, pools) && e == LoadError::MalformedData,
            }
        }),
{
    if point.vertex_index < 1 || point.vertex_index > vertices.len() {
        return Err(LoadError::MalformedData);
    }
    if point.normal_index > normals.len() || point.texture_index > textures.len() {
        return Err(LoadError::MalformedData);
    }
    let ghost pools = PoolsView {
        vertices: vertex_views(vertices@),
        normals: normal_views(normals@),
        textures: texture_views(textures@),
    };
    let mut record: Vec<Numeral> = Vec::new();
    let vertex = &vertices[point.vertex_index - 1];
    record.push(vertex.x.clone());
    record.push(vertex.y.clone());
    record.push(vertex.z.clone());
    assert(numeral_views(record@) =~= seq![vertex@.x, vertex@.y, vertex@.z]);
    if point.normal_index > 0 {
        let normal = &normals[point.normal_index - 1];
        record.push(normal.x.clone());
        record.push(normal.y.clone());
        record.push(normal.z.clone());
    }
    assert(numeral_views(record@) =~= seq![vertex@.x, vertex@.y, vertex@.z] + normal_part(
        point,
        pools,
    ));
    if point.texture_index > 0 {
        let texture = &textures[point.texture_index - 1];
        record.push(texture.x.clone());
        record.push(texture.y.clone());
    } else {
        record.push(Numeral::zero());
        record.push(Numeral::zero());
    }
    assert(numeral_views(record@) =~= point_record(point, pools));
    Ok(record)
}

/// Flattens the faces into one sequence of vertex records.
///
/// Succeeds exactly where every corner of every face lies in the pools.
pub fn flatten(
    faces: &Vec<Face>,
    vertices: &Vec<Vertex>,
    normals: &Vec<Normal>,
    textures: &Vec<Texture>,
) -> (r: Result<Vec<Numeral>, LoadError>)
    ensures
        ({
            let pools = PoolsView {
                vertices: vertex_views(vertices@),
                normals: normal_views(normals@),
                textures: texture_views(textures@),
            };
            match r {
                Ok(out) => all_resolvable(face_views(faces@), pools) && numeral_views(out@)
                    == faces_record(face_views(faces@), pools),
                Err(e) => !all_resolvable(face_views(faces@), pools) && e
                    == LoadError::MalformedData,
            }
        }),
{
    let ghost pools = PoolsView {
        vertices: vertex_views(vertices@),
        normals: normal_views(normals@),
        textures: texture_views(textures@),
    };
    let ghost all = face_views(faces@);
    let mut out: Vec<Numeral> = Vec::new();
    let count: usize = faces.len();
    let mut f: usize = 0;
    assert(numeral_views(out@) =~= Seq::<Seq<u8>>::empty());
    while f < count
        invariant
            f <= count,
            count == faces.len(),
            all == face_views(faces@),
            pools == (PoolsView {
                vertices: vertex_views(vertices@),
                normals: normal_views(normals@),
                textures: texture_views(textures@),
            }),
            all_resolvable(all.take(f as int), pools),
            numeral_views(out@) == faces_record(all.take(f as int), pools),
        decreases count - f,
    {
        let points = &faces[f].points;
        let ghost face = all[f as int];
        let ghost done = numeral_views(out@);
        assert(face == points@);
        let n: usize = points.len();
        let mut i: usize = 0;
        assert(done + face_record(face.take(0), pools) =~= done);
        while i < n
            invariant
                i <= n,
                n == points.len(),
                face == points@,
                pools == (PoolsView {
                    vertices: vertex_views(vertices@),
                    normals: normal_views(normals@),
                    textures: texture_views(textures@),
                }),
                0 <= f < all.len(),
                all == face_views(faces@),
                face == all[f as int],
                face_resolvable(face.take(i as int), pools),
                numeral_views(out@) == done + face_record(face.take(i as int), pools),
            decreases n - i,
        {
            match resolve_point(points[i], vertices, normals, textures) {
                Ok(mut record) => {
                    proof {
                        lemma_numeral_views_add(out@, record@);
                        assert(face.take(i + 1).drop_last() == face.take(i as int));
                        assert(face.take(i + 1).last() == face[i as int]);
                        assert(done + face_record(face.take(i as int), pools) + point_record(
                            face[i as int],
                            pools,
                        ) =~= done + face_record(face.take(i + 1), pools));
                    }
                    out.append(&mut record);
                },
                Err(e) => {
                    proof {
                        assert(!resolvable(face[i as int], pools));
                        assert(!face_resolvable(all[f as int], pools));
                    }
                    return Err(e);
                },
            }
            i += 1;
        }
        proof {
            assert(face.take(n as int) == face);
            assert(all.take(f + 1).drop_last() == all.take(f as int));
            assert(all.take(f + 1).last() == face);
            assert forall|k: int| 0 <= k < all.take(f + 1).len() implies face_resolvable(
                #[trigger] all.take(f + 1)[k],
                pools,
            ) by {
                if k < f {
                    assert(all.take(f as int)[k] == all[k]);
                }
            }
        }
        f += 1;
    }
    proof {
        assert(all.take(count as int) == all);
    }
    Ok(out)
}

/// Ends a reading: resolves the faces and closes the last run of
/// vertices.
pub fn finish(state: Geometry) -> (r: Result<Model, LoadError>)
    requires
        3 * state.faces@.len() <= usize::MAX,
    ensures
        match r {
            Ok(model) => model_from(state@) == Ok::<ModelView, LoadError>(model@),
            Err(e) => model_from(state@) == Err::<ModelView, LoadError>(e),
        },
{
    let total: usize = state.faces.len() * 3;
    match flatten(&state.faces, &state.vertices, &state.normals, &state.textures) {
        Ok(vertices) => {
            let mut material_indices = state.material_indices;
            material_indices.push(total);
            let model = Model { vertices, materials: state.materials, material_indices };
            proof {
                assert(model@.material_indices =~= state@.material_indices.push(
                    3 * state@.faces.len(),
                ));
            }
            Ok(model)
        },
        Err(e) => Err(e),
    }
}

/// Reads a model from geometry text, with the material libraries that lie
/// beside it.
///
/// The result is the model that [`model_of`] defines, or the error of the
/// first line that fails, or that of the faces where all lines pass. A
/// library that the text names and `libraries` lacks is a file error at the
/// line that names it.
pub fn load_model(text: &[u8], libraries: &Vec<LibraryFile>) -> (r: Result<Model, LoadError>)
    requires
        3 * text@.len() <= usize::MAX,
    ensures
        match r {
            Ok(model) => model_of(text@, library_views(libraries@)) == Ok::<ModelView, LoadError>(
                model@,
            ),
            Err(e) => model_of(text@, library_views(libraries@)) == Err::<ModelView, LoadError>(
                e,
            ),
        },
{
    let n: usize = text.len();
    let ghost files = library_views(libraries@);
    let mut state = Geometry::new();
    let mut pos: usize = 0;
    assert(state.faces@.len() == 0) by {
        assert(state@.faces.len() == 0);
    }
    while pos < n
        invariant
            pos <= n,
            n == text.len(),
            3 * n <= usize::MAX,
            files == library_views(libraries@),
            state.faces@.len() <= pos,
            geometry_run(geometry_start(), lines_of(text@), files) == geometry_run(
                state@,
                lines_from(text@, pos as int),
                files,
            ),
        decreases n - pos,
    {
        let end: usize = find_line_end(text, pos);
        let line: &[u8] = slice_subrange(text, pos, end);
        let ghost lines = lines_from(text@, pos as int);
        proof {
            assert(lines[0] == line@);
            assert(lines.drop_first() == lines_from(text@, end + 1));
        }
        match geometry_line(state, line, libraries) {
            Ok(next) => {
                state = next;
            },
            Err(e) => {
                return Err(e);
            },
        }
        pos = if end < n {
            end + 1
        } else {
            n
        };
    }
    finish(state)
}

/// Lists the material libraries that a geometry text refers to: the first
/// operand of each `mtllib` line, in the order of the text.
pub fn material_libraries(text: &[u8]) -> (r: Vec<Vec<u8>>)
    ensures
        byte_views(r@) == library_names(lines_of(text@)),
{
    let n: usize = text.len();
    let mut names: Vec<Vec<u8>> = Vec::new();
    let mut pos: usize = 0;
    assert(byte_views(names@) =~= Seq::<Seq<u8>>::empty());
    while pos < n
        invariant
            pos <= n,
            n == text.len(),
            library_names(lines_of(text@)) == byte_views(names@) + library_names(
                lines_from(text@, pos as int),
            ),
        decreases n - pos,
    {
        let end: usize = find_line_end(text, pos);
        let line: &[u8] = slice_subrange(text, pos, end);
        let ghost lines = lines_from(text@, pos as int);
        proof {
            assert(lines[0] == line@);
            assert(lines.drop_first() == lines_from(text@, end + 1));
        }
        let tokens = split_tokens(line);
        if tokens.len() >= 2 {
            assert(tokens@[0]@ == tokens_of(line@)[0]);
            assert(tokens@[1]@ == tokens_of(line@)[1]);
            match crate::geometry::classify_line(tokens[0]) {
                LineType::MaterialReference => {
                    let name = slice_to_vec(tokens[1]);
                    proof {
                        assert(byte_views(names@.push(name)) =~= byte_views(names@) + seq![name@]);
                        assert(byte_views(names@) + (seq![name@] + library_names(
                            lines.drop_first(),
                        )) =~= byte_views(names@) + seq![name@] + library_names(
                            lines.drop_first(),
                        ));
                    }
                    names.push(name);
                },
                _ => {},
            }
        }
        pos = if end < n {
            end + 1
        } else {
            n
        };
    }
    proof {
        assert(byte_views(names@) + Seq::<Seq<u8>>::empty() =~= byte_views(names@));
    }
    names
}

} // verus!
