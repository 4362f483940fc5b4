//! What holds of every geometry text and every material library.

use vstd::prelude::*;
use crate::error::LoadError;
use crate::face::{face_points_of, FacePoint};
use crate::geometry::{
    boundaries_after_selection, face_step, geometry_run, geometry_start, geometry_step,
    library_reference_step, library_views, line_type_of, normal_step, selection_step,
    texture_step, vertex_step, GeometryView, LibraryFile, LibraryFileView, LineType, PoolsView,
};
use crate::geometry::find_library;
use crate::model::{
    face_record, faces_record, library_name_in, library_names, load_model, model_of, normal_part,
    point_record, resolvable, texture_part, Model, ModelView,
};
use crate::library::{
    library_close, library_run, library_start, library_step, material_line_type_of,
    materials_of_lines, LibraryView, MaterialLineType, MaterialMap,
};
use crate::material::blank_material;
use crate::numeral::zero_text;
use crate::text::{lemma_tokens_not_empty, lines_of, tokens_of};

verus! {

/// The kind of a line, where it has a token.
pub open spec fn kind_of(line: Seq<u8>) -> Option<LineType> {
    let tokens = tokens_of(line);
    if tokens.len() == 0 {
        None
    } else {
        Some(line_type_of(tokens[0]))
    }
}

/// The faces that the lines list, in order: for each `f` line the corners
/// that its operands denote.
pub open spec fn faces_in(lines: Seq<Seq<u8>>) -> Seq<Seq<FacePoint>>
    decreases lines.len(),
{
    if lines.len() == 0 {
        Seq::empty()
    } else if kind_of(lines[0]) == Some(LineType::Face) {
        seq![face_points_of(tokens_of(lines[0]).skip(1))] + faces_in(lines.drop_first())
    } else {
        faces_in(lines.drop_first())
    }
}

/// The number of `usemtl` lines that come after a face, where
/// `faces_before` faces precede the lines.
pub open spec fn selections_after_face(lines: Seq<Seq<u8>>, faces_before: nat) -> nat
    decreases lines.len(),
{
    if lines.len() == 0 {
        0
    } else if kind_of(lines[0]) == Some(LineType::Face) {
        selections_after_face(lines.drop_first(), faces_before + 1)
    } else if kind_of(lines[0]) == Some(LineType::UseMaterial) && faces_before > 0 {
        1 + selections_after_face(lines.drop_first(), faces_before)
    } else {
        selections_after_face(lines.drop_first(), faces_before)
    }
}

/// Whether the boundaries do not fall, and none lies beyond three times
/// the number of faces.
pub open spec fn boundaries_ordered(boundaries: Seq<nat>, faces: nat) -> bool {
    &&& forall|i: int, j: int|
        0 <= i <= j < boundaries.len() ==> #[trigger] boundaries[i] <= #[trigger] boundaries[j]
    &&& forall|i: int| 0 <= i < boundaries.len() ==> #[trigger] boundaries[i] <= 3 * faces
}

/// The number of corners of all faces.
pub open spec fn corner_count(faces: Seq<Seq<FacePoint>>) -> nat
    decreases faces.len(),
{
    if faces.len() == 0 {
        0
    } else {
        corner_count(faces.drop_last()) + faces.last().len()
    }
}

/// The number of corners of a face that have a normal.
pub open spec fn normals_in(points: Seq<FacePoint>) -> nat
    decreases points.len(),
{
    if points.len() == 0 {
        0
    } else if points.last().normal_index > 0 {
        normals_in(points.drop_last()) + 1
    } else {
        normals_in(points.drop_last())
    }
}

/// The number of corners of all faces that have a normal.
pub open spec fn normal_count(faces: Seq<Seq<FacePoint>>) -> nat
    decreases faces.len(),
{
    if faces.len() == 0 {
        0
    } else {
        normal_count(faces.drop_last()) + normals_in(faces.last())
    }
}

/// Whether every corner of every face has a normal.
pub open spec fn all_with_normals(faces: Seq<Seq<FacePoint>>) -> bool {
    forall|f: int, i: int|
        0 <= f < faces.len() && 0 <= i < faces[f].len() ==> (#[trigger] faces[f][i]).normal_index
            > 0
}

/// Whether no corner of any face has a normal.
pub open spec fn none_with_normals(faces: Seq<Seq<FacePoint>>) -> bool {
    forall|f: int, i: int|
        0 <= f < faces.len() && 0 <= i < faces[f].len() ==> (#[trigger] faces[f][i]).normal_index
            == 0
}

/// Whether every face has three corners.
pub open spec fn all_triangles(faces: Seq<Seq<FacePoint>>) -> bool {
    forall|f: int| 0 <= f < faces.len() ==> (#[trigger] faces[f]).len() == 3
}

proof fn lemma_step_effect(
    state: GeometryView,
    line: Seq<u8>,
    files: Seq<LibraryFileView>,
    next: GeometryView,
)
    requires
        geometry_step(state, line, files) == Ok::<GeometryView, LoadError>(next),
    ensures
        next.faces == state.faces + faces_in(seq![line]),
        next.material_indices.len() == state.material_indices.len() + selections_after_face(
            seq![line],
            state.faces.len(),
        ),
        boundaries_ordered(state.material_indices, state.faces.len()) ==> boundaries_ordered(
            next.material_indices,
            next.faces.len(),
        ),
{
    let lines = seq![line];
    assert(lines[0] == line);
    assert(lines.drop_first() =~= Seq::<Seq<u8>>::empty());
    assert(faces_in(lines.drop_first()) =~= Seq::<Seq<FacePoint>>::empty());
    reveal_with_fuel(faces_in, 2);
    reveal_with_fuel(selections_after_face, 2);
    let tokens = tokens_of(line);
    let operands = tokens.skip(1);
    if tokens.len() == 0 {
        assert(next == state);
        assert(next.faces =~= state.faces + faces_in(lines));
    } else {
        match line_type_of(tokens[0]) {
            LineType::Face => {
                assert(face_step(state, operands) == Ok::<GeometryView, LoadError>(next));
                assert(next.faces =~= state.faces + faces_in(lines));
            },
            LineType::UseMaterial => {
                assert(selection_step(state, operands) == Ok::<GeometryView, LoadError>(next));
                assert(next.faces =~= state.faces + faces_in(lines));
                assert(next.material_indices == boundaries_after_selection(state));
            },
            LineType::Vertex => {
                assert(vertex_step(state, operands) == Ok::<GeometryView, LoadError>(next));
                assert(next.faces =~= state.faces + faces_in(lines));
            },
            LineType::Normal => {
                assert(normal_step(state, operands) == Ok::<GeometryView, LoadError>(next));
                assert(next.faces =~= state.faces + faces_in(lines));
            },
            LineType::Texture => {
                assert(texture_step(state, operands) == Ok::<GeometryView, LoadError>(next));
                assert(next.faces =~= state.faces + faces_in(lines));
            },
            LineType::MaterialReference => {
                assert(library_reference_step(state, operands, files) == Ok::<
                    GeometryView,
                    LoadError,
                >(next));
                assert(next.faces =~= state.faces + faces_in(lines));
            },
            LineType::Comment => {
                assert(next.faces =~= state.faces + faces_in(lines));
            },
            LineType::Unknown => {
                assert(next.faces =~= state.faces + faces_in(lines));
            },
        }
    }
}

proof fn lemma_run_effect(
    state: GeometryView,
    lines: Seq<Seq<u8>>,
    files: Seq<LibraryFileView>,
    last: GeometryView,
)
    requires
        geometry_run(state, lines, files) == Ok::<GeometryView, LoadError>(last),
    ensures
        last.faces == state.faces + faces_in(lines),
        last.material_indices.len() == state.material_indices.len() + selections_after_face(
            lines,
            state.faces.len(),
        ),
        boundaries_ordered(state.material_indices, state.faces.len()) ==> boundaries_ordered(
            last.material_indices,
            last.faces.len(),
        ),
    decreases lines.len(),
{
    if lines.len() == 0 {
        assert(last.faces =~= state.faces + faces_in(lines));
    } else {
        let next = geometry_step(state, lines[0], files)->Ok_0;
        lemma_step_effect(state, lines[0], files, next);
        lemma_run_effect(next, lines.drop_first(), files, last);
        let one = seq![lines[0]];
        assert(one[0] == lines[0]);
        assert(one.drop_first() =~= Seq::<Seq<u8>>::empty());
        reveal_with_fuel(faces_in, 2);
        reveal_with_fuel(selections_after_face, 2);
        assert(faces_in(one.drop_first()) =~= Seq::<Seq<FacePoint>>::empty());
        assert(last.faces =~= state.faces + faces_in(lines));
    }
}

proof fn lemma_face_record_len(points: Seq<FacePoint>, pools: PoolsView)
    ensures
        face_record(points, pools).len() == 5 * points.len() + 3 * normals_in(points),
    decreases points.len(),
{
    if points.len() > 0 {
        lemma_face_record_len(points.drop_last(), pools);
    }
}

proof fn lemma_faces_record_len(faces: Seq<Seq<FacePoint>>, pools: PoolsView)
    ensures
        faces_record(faces, pools).len() == 5 * corner_count(faces) + 3 * normal_count(faces),
    decreases faces.len(),
{
    if faces.len() > 0 {
        lemma_faces_record_len(faces.drop_last(), pools);
        lemma_face_record_len(faces.last(), pools);
    }
}

proof fn lemma_normals_in_uniform(points: Seq<FacePoint>)
    ensures
        (forall|i: int| 0 <= i < points.len() ==> (#[trigger] points[i]).normal_index > 0)
            ==> normals_in(points) == points.len(),
        (forall|i: int| 0 <= i < points.len() ==> (#[trigger] points[i]).normal_index == 0)
            ==> normals_in(points) == 0,
    decreases points.len(),
{
    if points.len() > 0 {
        let front = points.drop_last();
        lemma_normals_in_uniform(front);
        assert(forall|i: int| 0 <= i < front.len() ==> front[i] == points[i]);
        if forall|i: int| 0 <= i < points.len() ==> (#[trigger] points[i]).normal_index > 0 {
            assert(points[points.len() - 1].normal_index > 0);
            assert forall|i: int| 0 <= i < front.len() implies (#[trigger] front[i]).normal_index
                > 0 by {
                assert(points[i].normal_index > 0);
            }
        }
        if forall|i: int| 0 <= i < points.len() ==> (#[trigger] points[i]).normal_index == 0 {
            assert(points[points.len() - 1].normal_index == 0);
            assert forall|i: int| 0 <= i < front.len() implies (#[trigger] front[i]).normal_index
                == 0 by {
                assert(points[i].normal_index == 0);
            }
        }
    }
}

proof fn lemma_counts_uniform(faces: Seq<Seq<FacePoint>>)
    ensures
        all_with_normals(faces) ==> normal_count(faces) == corner_count(faces),
        none_with_normals(faces) ==> normal_count(faces) == 0,
        all_triangles(faces) ==> corner_count(faces) == 3 * faces.len(),
    decreases faces.len(),
{
    if faces.len() > 0 {
        let front = faces.drop_last();
        let back = faces.last();
        lemma_counts_uniform(front);
        lemma_normals_in_uniform(back);
        assert(forall|f: int| 0 <= f < front.len() ==> front[f] == faces[f]);
        assert(back == faces[faces.len() - 1]);
        if all_with_normals(faces) {
            assert forall|f: int, i: int|
                0 <= f < front.len() && 0 <= i < front[f].len() implies (
            #[trigger] front[f][i]).normal_index > 0 by {
                assert(faces[f][i].normal_index > 0);
            }
            assert forall|i: int| 0 <= i < back.len() implies (#[trigger] back[i]).normal_index
                > 0 by {
                assert(faces[faces.len() - 1][i].normal_index > 0);
            }
        }
        if none_with_normals(faces) {
            assert forall|f: int, i: int|
                0 <= f < front.len() && 0 <= i < front[f].len() implies (
            #[trigger] front[f][i]).normal_index == 0 by {
                assert(faces[f][i].normal_index == 0);
            }
            assert forall|i: int| 0 <= i < back.len() implies (#[trigger] back[i]).normal_index
                == 0 by {
                assert(faces[faces.len() - 1][i].normal_index == 0);
            }
        }
        if all_triangles(faces) {
            assert forall|f: int| 0 <= f < front.len() implies (#[trigger] front[f]).len()
                == 3 by {
                assert(faces[f].len() == 3);
            }
            assert(faces[faces.len() - 1].len() == 3);
        }
    }
}

/// The length of the vertex sequence of a model.
///
/// Each corner of each face that the text lists gives five numbers, and
/// three more where it has a normal. So where every corner has a normal the
/// length is eight times the number of corners, and where none has one it
/// is five times that number; where every face is a triangle, the corners
/// are three times the faces.
pub proof fn vertex_sequence_length(text: Seq<u8>, files: Seq<LibraryFileView>, model: ModelView)
    requires
        model_of(text, files) == Ok::<ModelView, LoadError>(model),
    ensures
        ({
            let faces = faces_in(lines_of(text));
            &&& model.vertices.len() == 5 * corner_count(faces) + 3 * normal_count(faces)
            &&& all_with_normals(faces) ==> model.vertices.len() == 8 * corner_count(faces)
                && model.vertices.len() % 8 == 0
            &&& none_with_normals(faces) ==> model.vertices.len() == 5 * corner_count(faces)
                && model.vertices.len() % 5 == 0
            &&& all_triangles(faces) ==> corner_count(faces) == 3 * faces.len()
        }),
{
    let lines = lines_of(text);
    let state = geometry_run(geometry_start(), lines, files)->Ok_0;
    lemma_run_effect(geometry_start(), lines, files, state);
    assert(state.faces =~= faces_in(lines));
    lemma_faces_record_len(state.faces, state.pools);
    lemma_counts_uniform(state.faces);
}

/// The boundaries of a model.
///
/// There is one boundary for each `usemtl` line that comes after a face,
/// and one more at the end, which is three times the number of faces; and
/// the boundaries do not fall.
pub proof fn boundary_list(text: Seq<u8>, files: Seq<LibraryFileView>, model: ModelView)
    requires
        model_of(text, files) == Ok::<ModelView, LoadError>(model),
    ensures
        model.material_indices.len() == selections_after_face(lines_of(text), 0) + 1,
        model.material_indices.last() == 3 * faces_in(lines_of(text)).len(),
        forall|i: int, j: int|
            0 <= i <= j < model.material_indices.len() ==> model.material_indices[i]
                <= model.material_indices[j],
{
    let lines = lines_of(text);
    let state = geometry_run(geometry_start(), lines, files)->Ok_0;
    lemma_run_effect(geometry_start(), lines, files, state);
    assert(state.faces =~= faces_in(lines));
    assert(boundaries_ordered(geometry_start().material_indices, 0));
}

proof fn lemma_run_grows(
    state: GeometryView,
    lines: Seq<Seq<u8>>,
    files: Seq<LibraryFileView>,
    last: GeometryView,
)
    requires
        geometry_run(state, lines, files) == Ok::<GeometryView, LoadError>(last),
    ensures
        state.pools.vertices.is_prefix_of(last.pools.vertices),
        state.pools.normals.is_prefix_of(last.pools.normals),
        state.pools.textures.is_prefix_of(last.pools.textures),
        state.faces.is_prefix_of(last.faces),
    decreases lines.len(),
{
    if lines.len() > 0 {
        let next = geometry_step(state, lines[0], files)->Ok_0;
        lemma_run_grows(next, lines.drop_first(), files, last);
        let tokens = tokens_of(lines[0]);
        let operands = tokens.skip(1);
        if tokens.len() > 0 {
            match line_type_of(tokens[0]) {
                LineType::Face => {
                    assert(face_step(state, operands) == Ok::<GeometryView, LoadError>(next));
                },
                LineType::UseMaterial => {
                    assert(selection_step(state, operands) == Ok::<GeometryView, LoadError>(next));
                },
                LineType::Vertex => {
                    assert(vertex_step(state, operands) == Ok::<GeometryView, LoadError>(next));
                },
                LineType::Normal => {
                    assert(normal_step(state, operands) == Ok::<GeometryView, LoadError>(next));
                },
                LineType::Texture => {
                    assert(texture_step(state, operands) == Ok::<GeometryView, LoadError>(next));
                },
                LineType::MaterialReference => {
                    assert(library_reference_step(state, operands, files) == Ok::<
                        GeometryView,
                        LoadError,
                    >(next));
                },
                LineType::Comment => {},
                LineType::Unknown => {},
            }
        }
        assert(state.pools.vertices.is_prefix_of(next.pools.vertices));
        assert(state.pools.normals.is_prefix_of(next.pools.normals));
        assert(state.pools.textures.is_prefix_of(next.pools.textures));
        assert(state.faces.is_prefix_of(next.faces));
    }
}

/// The pools and the list of faces only grow.
///
/// Whatever lines are read from a state, what the pools and the list of
/// faces held before stays where it was; the lines only add behind it.
pub proof fn pools_only_grow(
    state: GeometryView,
    lines: Seq<Seq<u8>>,
    files: Seq<LibraryFileView>,
    last: GeometryView,
)
    requires
        geometry_run(state, lines, files) == Ok::<GeometryView, LoadError>(last),
    ensures
        state.pools.vertices.is_prefix_of(last.pools.vertices),
        state.pools.normals.is_prefix_of(last.pools.normals),
        state.pools.textures.is_prefix_of(last.pools.textures),
        state.faces.is_prefix_of(last.faces),
{
    lemma_run_grows(state, lines, files, last);
}

/// Whether two sets of library files hold the same under each of the
/// names.
pub open spec fn agree_on(
    files: Seq<LibraryFileView>,
    others: Seq<LibraryFileView>,
    names: Seq<Seq<u8>>,
) -> bool {
    forall|k: int|
        0 <= k < names.len() ==> find_library(files, #[trigger] names[k], 0) == find_library(
            others,
            names[k],
            0,
        )
}

proof fn lemma_run_reads_listed(
    state: GeometryView,
    lines: Seq<Seq<u8>>,
    files: Seq<LibraryFileView>,
    others: Seq<LibraryFileView>,
)
    requires
        agree_on(files, others, library_names(lines)),
    ensures
        geometry_run(state, lines, files) == geometry_run(state, lines, others),
    decreases lines.len(),
{
    if lines.len() > 0 {
        let names = library_names(lines);
        let rest = lines.drop_first();
        let rest_names = library_names(rest);
        match library_name_in(lines[0]) {
            Some(name) => {
                assert(names[0] == name);
                assert forall|k: int| 0 <= k < rest_names.len() implies find_library(
                    files,
                    #[trigger] rest_names[k],
                    0,
                ) == find_library(others, rest_names[k], 0) by {
                    assert(names[k + 1] == rest_names[k]);
                }
            },
            None => {},
        }
        assert(geometry_step(state, lines[0], files) == geometry_step(state, lines[0], others));
        match geometry_step(state, lines[0], files) {
            Ok(next) => {
                lemma_run_reads_listed(next, rest, files, others);
            },
            Err(e) => {},
        }
    }
}

/// The libraries that a text lists are all that its model needs.
///
/// Two sets of library files that hold the same under each name that the
/// text refers to give the same model, or the same failure.
pub proof fn listed_libraries_suffice(
    text: Seq<u8>,
    files: Seq<LibraryFileView>,
    others: Seq<LibraryFileView>,
)
    requires
        agree_on(files, others, library_names(lines_of(text))),
    ensures
        model_of(text, files) == model_of(text, others),
{
    lemma_run_reads_listed(geometry_start(), lines_of(text), files, others);
}

/// A corner without a normal or without a texture coordinate.
///
/// An index of 0 in the second or the third place is no error: a corner
/// whose other indices lie in their pools resolves. Without a normal its
/// record has no numbers for one, and without a texture coordinate it has
/// `0.0` twice in its place.
pub proof fn absent_attributes_take_defaults(point: FacePoint, pools: PoolsView)
    requires
        1 <= point.vertex_index <= pools.vertices.len(),
        point.normal_index == 0 || point.normal_index <= pools.normals.len(),
        point.texture_index == 0 || point.texture_index <= pools.textures.len(),
    ensures
        resolvable(point, pools),
        point.normal_index == 0 ==> normal_part(point, pools) == Seq::<Seq<u8>>::empty(),
        point.texture_index == 0 ==> texture_part(point, pools) == seq![zero_text(), zero_text()],
        point.normal_index == 0 && point.texture_index == 0 ==> point_record(point, pools) == ({
            let v = pools.vertices[point.vertex_index - 1];
            seq![v.x, v.y, v.z, zero_text(), zero_text()]
        }),
{
    if point.normal_index == 0 && point.texture_index == 0 {
        let v = pools.vertices[point.vertex_index - 1];
        assert(point_record(point, pools) =~= seq![v.x, v.y, v.z, zero_text(), zero_text()]);
    }
}

/// What a load hands out, as a value.
pub open spec fn outcome(r: Result<Model, LoadError>) -> Result<ModelView, LoadError> {
    match r {
        Ok(model) => Ok(model@),
        Err(e) => Err(e),
    }
}

/// Loading is a function of the text and the libraries: two loads of the
/// same input hand out the same model, or fail in the same way.
pub proof fn load_model_repeats(
    text: &[u8],
    libraries: &Vec<LibraryFile>,
    first: Result<Model, LoadError>,
    second: Result<Model, LoadError>,
)
    requires
        call_ensures(load_model, (text, libraries), first),
        call_ensures(load_model, (text, libraries), second),
    ensures
        outcome(first) == outcome(second),
        outcome(first) == model_of(text@, library_views(libraries@)),
{
}

/// Whether a line starts a material.
pub open spec fn starts_material(line: Seq<u8>) -> bool {
    let tokens = tokens_of(line);
    tokens.len() > 0 && material_line_type_of(tokens[0]) == MaterialLineType::NewMaterial
}

/// Whether a line starts a material of the given name.
pub open spec fn defines(line: Seq<u8>, name: Seq<u8>) -> bool {
    let tokens = tokens_of(line);
    tokens.len() >= 2 && material_line_type_of(tokens[0]) == MaterialLineType::NewMaterial
        && tokens[1] == name
}

/// The state in which a material of the given name starts to be filled,
/// with nothing in the table.
pub open spec fn fresh_block(name: Seq<u8>) -> LibraryView {
    LibraryView { table: Map::empty(), current: blank_material(name) }
}

proof fn lemma_library_run_concat(state: LibraryView, a: Seq<Seq<u8>>, b: Seq<Seq<u8>>)
    ensures
        library_run(state, a + b) == match library_run(state, a) {
            Ok(middle) => library_run(middle, b),
            Err(e) => Err(e),
        },
    decreases a.len(),
{
    if a.len() == 0 {
        assert(a + b =~= b);
    } else {
        assert((a + b)[0] == a[0]);
        assert((a + b).drop_first() =~= a.drop_first() + b);
        match library_step(state, a[0]) {
            Ok(next) => {
                lemma_library_run_concat(next, a.drop_first(), b);
            },
            Err(e) => {},
        }
    }
}

proof fn lemma_block(state: LibraryView, body: Seq<Seq<u8>>, table: MaterialMap)
    requires
        forall|i: int| 0 <= i < body.len() ==> !starts_material(#[trigger] body[i]),
    ensures
        match library_run(state, body) {
            Ok(last) => {
                &&& last.table == state.table
                &&& last.current.name == state.current.name
                &&& library_run(LibraryView { table, current: state.current }, body) == Ok::<
                    LibraryView,
                    LoadError,
                >(LibraryView { table, current: last.current })
            },
            Err(e) => library_run(LibraryView { table, current: state.current }, body) == Err::<
                LibraryView,
                LoadError,
            >(e),
        },
    decreases body.len(),
{
    if body.len() > 0 {
        assert(!starts_material(body[0]));
        let rest = body.drop_first();
        assert forall|i: int| 0 <= i < rest.len() implies !starts_material(#[trigger] rest[i]) by {
            assert(rest[i] == body[i + 1]);
        }
        let twin = LibraryView { table, current: state.current };
        match library_step(state, body[0]) {
            Ok(next) => {
                assert(library_step(twin, body[0]) == Ok::<LibraryView, LoadError>(
                    LibraryView { table, current: next.current },
                ));
                lemma_block(next, rest, table);
            },
            Err(e) => {
                assert(library_step(twin, body[0]) == Err::<LibraryView, LoadError>(e));
            },
        }
    }
}

proof fn lemma_entry_stays(state: LibraryView, lines: Seq<Seq<u8>>, name: Seq<u8>)
    requires
        state.current.name != name,
        state.table.contains_key(name),
        forall|i: int| 0 <= i < lines.len() ==> !defines(#[trigger] lines[i], name),
    ensures
        library_run(state, lines) matches Ok(last) ==> {
            &&& last.current.name != name
            &&& last.table.contains_key(name)
            &&& last.table[name] == state.table[name]
        },
    decreases lines.len(),
{
    if lines.len() > 0 {
        assert(!defines(lines[0], name));
        let rest = lines.drop_first();
        assert forall|i: int| 0 <= i < rest.len() implies !defines(#[trigger] rest[i], name) by {
            assert(rest[i] == lines[i + 1]);
        }
        match library_step(state, lines[0]) {
            Ok(next) => {
                lemma_entry_stays(next, rest, name);
            },
            Err(e) => {},
        }
    }
}

/// A later definition of a name takes the place of an earlier one.
///
/// Take a library in which `start` starts a material of some name, `body`
/// holds the lines of that material, and no line of `tail` starts a material
/// of the name again. Then the table holds under the name what `body` alone
/// makes of a blank material, whatever `head` defined under it.
pub proof fn later_definition_wins(
    head: Seq<Seq<u8>>,
    start: Seq<u8>,
    body: Seq<Seq<u8>>,
    tail: Seq<Seq<u8>>,
    name: Seq<u8>,
    table: MaterialMap,
)
    requires
        defines(start, name),
        forall|i: int| 0 <= i < body.len() ==> !starts_material(#[trigger] body[i]),
        tail.len() > 0 ==> starts_material(tail[0]),
        forall|i: int| 0 <= i < tail.len() ==> !defines(#[trigger] tail[i], name),
        materials_of_lines(head + seq![start] + body + tail) == Ok::<MaterialMap, LoadError>(
            table,
        ),
    ensures
        table.contains_key(name),
        library_run(fresh_block(name), body) matches Ok(block) && table[name] == block.current,
{
    let lines = head + seq![start] + body + tail;
    let s0 = library_start();
    lemma_library_run_concat(s0, head + seq![start] + body, tail);
    lemma_library_run_concat(s0, head + seq![start], body);
    lemma_library_run_concat(s0, head, seq![start]);
    let s1 = library_run(s0, head)->Ok_0;
    let one = seq![start];
    assert(one[0] == start);
    assert(one.drop_first() =~= Seq::<Seq<u8>>::empty());
    reveal_with_fuel(library_run, 2);
    let s2 = library_step(s1, start)->Ok_0;
    assert(library_run(s1, one) == Ok::<LibraryView, LoadError>(s2));
    assert(s2.current == blank_material(name));
    lemma_block(s2, body, Map::empty());
    let s3 = library_run(s2, body)->Ok_0;
    let made = s3.current;
    assert(made.name == name);
    lemma_tokens_not_empty(start, 0, 1);
    assert(name.len() > 0);
    let last = library_run(s3, tail)->Ok_0;
    assert(table == library_close(last));
    if tail.len() > 0 {
        let s4 = library_step(s3, tail[0])->Ok_0;
        assert(!defines(tail[0], name));
        assert(s4.table == s3.table.insert(name, made));
        let rest = tail.drop_first();
        assert forall|i: int| 0 <= i < rest.len() implies !defines(#[trigger] rest[i], name) by {
            assert(rest[i] == tail[i + 1]);
        }
        lemma_entry_stays(s4, rest, name);
    }
}

} // verus!
