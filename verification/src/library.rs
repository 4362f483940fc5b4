//! Reading a material library: the text that defines materials by name.
//!
//! A library is read line by line. `newmtl` starts a material; the lines
//! `Ka`, `Kd`, `Ks`, `Ke` and `Ns` after it set its properties; any other
//! line is passed over. A material enters the table when the next one
//! starts or the text ends, in place of an earlier one of its name.

use vstd::prelude::*;
use vstd::slice::slice_to_vec;
use vstd::utf8::valid_utf8;
use crate::encoding::is_valid_utf8;
use crate::error::LoadError;
use crate::material::{blank_material, Material, MaterialTable, MaterialView};
use crate::numeral::all_decimal;
use crate::pool::parse_numbers;
use crate::text::{bytes_eq, find_line_end, lines_from, lines_of, split_tokens, tokens_of};

verus! {

/// A mapping from names to materials.
pub type MaterialMap = Map<Seq<u8>, MaterialView>;

/// What the first token of a line of a material library asks for.
#[derive(Clone, Copy, Debug, PartialEq, Eq, Structural)]
pub enum MaterialLineType {
    NewMaterial,
    AmbientPercentage,
    DiffuseColor,
    SpecularColor,
    EmissiveColor,
    Shininess,
    Comment,
    Unknown,
}

/// The directive `newmtl`.
pub open spec fn word_newmtl() -> Seq<u8> {
    seq!['n' as u8, 'e' as u8, 'w' as u8, 'm' as u8, 't' as u8, 'l' as u8]
}

/// The directive `Ka`.
pub open spec fn word_ka() -> Seq<u8> {
    seq!['K' as u8, 'a' as u8]
}

/// The directive `Kd`.
pub open spec fn word_kd() -> Seq<u8> {
    seq!['K' as u8, 'd' as u8]
}

/// The directive `Ks`.
pub open spec fn word_ks() -> Seq<u8> {
    seq!['K' as u8, 's' as u8]
}

/// The directive `Ke`.
pub open spec fn word_ke() -> Seq<u8> {
    seq!['K' as u8, 'e' as u8]
}

/// The directive `Ns`.
pub open spec fn word_ns() -> Seq<u8> {
    seq!['N' as u8, 's' as u8]
}

/// The directive `#`.
pub open spec fn word_hash() -> Seq<u8> {
    seq!['#' as u8]
}

/// The kind of line that a first token selects.
pub open spec fn material_line_type_of(token: Seq<u8>) -> MaterialLineType {
    if token == word_newmtl() {
        MaterialLineType::NewMaterial
    } else if token == word_ka() {
        MaterialLineType::AmbientPercentage
    } else if token == word_kd() {
        MaterialLineType::DiffuseColor
    } else if token == word_ks() {
        MaterialLineType::SpecularColor
    } else if token == word_ke() {
        MaterialLineType::EmissiveColor
    } else if token == word_ns() {
        MaterialLineType::Shininess
    } else if token == word_hash() {
        MaterialLineType::Comment
    } else {
        MaterialLineType::Unknown
    }
}

/// Tells the kind of a line from its first token.
pub fn classify_material_line(token: &[u8]) -> (r: MaterialLineType)
    ensures
        r == material_line_type_of(token@),
{
    let newmtl: [u8; 6] = ['n' as u8, 'e' as u8, 'w' as u8, 'm' as u8, 't' as u8, 'l' as u8];
    let ka: [u8; 2] = ['K' as u8, 'a' as u8];
    let kd: [u8; 2] = ['K' as u8, 'd' as u8];
    let ks: [u8; 2] = ['K' as u8, 's' as u8];
    let ke: [u8; 2] = ['K' as u8, 'e' as u8];
    let ns: [u8; 2] = ['N' as u8, 's' as u8];
    let hash: [u8; 1] = ['#' as u8];
    proof {
        assert(newmtl@ =~= word_newmtl());
        assert(ka@ =~= word_ka());
        assert(kd@ =~= word_kd());
        assert(ks@ =~= word_ks());
        assert(ke@ =~= word_ke());
        assert(ns@ =~= word_ns());
        assert(hash@ =~= word_hash());
    }
    if bytes_eq(token, newmtl.as_slice()) {
        MaterialLineType::NewMaterial
    } else if bytes_eq(token, ka.as_slice()) {
        MaterialLineType::AmbientPercentage
    } else if bytes_eq(token, kd.as_slice()) {
        MaterialLineType::DiffuseColor
    } else if bytes_eq(token, ks.as_slice()) {
        MaterialLineType::SpecularColor
    } else if bytes_eq(token, ke.as_slice()) {
        MaterialLineType::EmissiveColor
    } else if bytes_eq(token, ns.as_slice()) {
        MaterialLineType::Shininess
    } else if bytes_eq(token, hash.as_slice()) {
        MaterialLineType::Comment
    } else {
        MaterialLineType::Unknown
    }
}

/// Where the reading of a library stands: the materials that are complete,
/// and the one that the lines are filling.
#[verifier::ext_equal]
pub struct LibraryView {
    pub table: MaterialMap,
    pub current: MaterialView,
}

/// The state before the first line: nothing complete, and a material
/// without a name to fill.
pub open spec fn library_start() -> LibraryView {
    LibraryView { table: Map::empty(), current: blank_material(Seq::empty()) }
}

/// The table with the material that is being filled put in, unless it has
/// no name.
pub open spec fn with_named_current(state: LibraryView) -> MaterialMap {
    if state.current.name.len() > 0 {
        state.table.insert(state.current.name, state.current)
    } else {
        state.table
    }
}

/// What one line does to the state.
///
/// A line that is not valid UTF-8 cannot be read. A line without tokens
/// changes nothing. Otherwise the first token decides; the tokens after it
/// are the operands. `newmtl` needs a name, the colour lines need every
/// operand to be a decimal literal, and `Ns` needs that and at least one.
pub open spec fn library_step(state: LibraryView, line: Seq<u8>) -> Result<LibraryView, LoadError> {
    let tokens = tokens_of(line);
    let operands = tokens.skip(1);
    if !valid_utf8(line) {
        Err(LoadError::LineRead)
    } else if tokens.len() == 0 {
        Ok(state)
    } else {
        match material_line_type_of(tokens[0]) {
            MaterialLineType::NewMaterial => if operands.len() == 0 {
                Err(LoadError::MalformedData)
            } else {
                Ok(
                    LibraryView {
                        table: with_named_current(state),
                        current: blank_material(operands[0]),
                    },
                )
            },
            MaterialLineType::AmbientPercentage => if all_decimal(operands) {
                Ok(
                    LibraryView {
                        current: MaterialView { ambient_percentage: operands, ..state.current },
                        ..state
                    },
                )
            } else {
                Err(LoadError::MalformedData)
            },
            MaterialLineType::DiffuseColor => if all_decimal(operands) {
                Ok(
                    LibraryView {
                        current: MaterialView { diffuse_color: operands, ..state.current },
                        ..state
                    },
                )
            } else {
                Err(LoadError::MalformedData)
            },
            MaterialLineType::SpecularColor => if all_decimal(operands) {
                Ok(
                    LibraryView {
                        current: MaterialView { specular_color: operands, ..state.current },
                        ..state
                    },
                )
            } else {
                Err(LoadError::MalformedData)
            },
            MaterialLineType::EmissiveColor => if all_decimal(operands) {
                Ok(
                    LibraryView {
                        current: MaterialView { emissive_color: operands, ..state.current },
                        ..state
                    },
                )
            } else {
                Err(LoadError::MalformedData)
            },
            MaterialLineType::Shininess => if all_decimal(operands) && operands.len() > 0 {
                Ok(
                    LibraryView {
                        current: MaterialView { shininess: operands[0], ..state.current },
                        ..state
                    },
                )
            } else {
                Err(LoadError::MalformedData)
            },
            MaterialLineType::Comment => Ok(state),
            MaterialLineType::Unknown => Ok(state),
        }
    }
}

/// What the lines do to the state, one after the other, up to the first
/// that fails.
pub open spec fn library_run(state: LibraryView, lines: Seq<Seq<u8>>) -> Result<
    LibraryView,
    LoadError,
>
    decreases lines.len(),
{
    if lines.len() == 0 {
        Ok(state)
    } else {
        match library_step(state, lines[0]) {
            Ok(next) => library_run(next, lines.drop_first()),
            Err(e) => Err(e),
        }
    }
}

/// The table at the end of the text: the material that was being filled
/// goes in under its name, also where it has none.
pub open spec fn library_close(state: LibraryView) -> MaterialMap {
    state.table.insert(state.current.name, state.current)
}

/// The table that the lines of a library define.
pub open spec fn materials_of_lines(lines: Seq<Seq<u8>>) -> Result<MaterialMap, LoadError> {
    match library_run(library_start(), lines) {
        Ok(state) => Ok(library_close(state)),
        Err(e) => Err(e),
    }
}

/// The table that the text of a library defines.
pub open spec fn materials_of(text: Seq<u8>) -> Result<MaterialMap, LoadError> {
    materials_of_lines(lines_of(text))
}

struct Library {
    table: MaterialTable,
    current: Material,
}

impl View for Library {
    type V = LibraryView;

    closed spec fn view(&self) -> LibraryView {
        LibraryView { table: self.table@, current: self.current@ }
    }
}

/// Applies one line of a library.
fn library_line(state: Library, line: &[u8]) -> (r: Result<Library, LoadError>)
    ensures
        match r {
            Ok(next) => library_step(state@, line@) == Ok::<LibraryView, LoadError>(next@),
            Err(e) => library_step(state@, line@) == Err::<LibraryView, LoadError>(e),
        },
{
    if !is_valid_utf8(line) {
        return Err(LoadError::LineRead);
    }
    let tokens = split_tokens(line);
    if tokens.len() == 0 {
        return Ok(state);
    }
    let ghost operands = tokens_of(line@).skip(1);
    let mut state = state;
    assert(tokens@[0]@ == tokens_of(line@)[0]);
    match classify_material_line(tokens[0]) {
        MaterialLineType::NewMaterial => {
            if tokens.len() < 2 {
                return Err(LoadError::MalformedData);
            }
            assert(tokens@[1]@ == operands[0]);
            let next = Material::blank(slice_to_vec(tokens[1]));
            if state.current.name.len() > 0 {
                state.table.insert(state.current);
            }
            state.current = next;
            Ok(state)
        },
        MaterialLineType::AmbientPercentage => {
            match parse_numbers(&tokens, 1) {
                Ok(numbers) => {
                    state.current.ambient_percentage = numbers;
                    Ok(state)
                },
                Err(e) => Err(e),
            }
        },
        MaterialLineType::DiffuseColor => {
            match parse_numbers(&tokens, 1) {
                Ok(numbers) => {
                    state.current.diffuse_color = numbers;
                    Ok(state)
                },
                Err(e) => Err(e),
            }
        },
        MaterialLineType::SpecularColor => {
            match parse_numbers(&tokens, 1) {
                Ok(numbers) => {
                    state.current.specular_color = numbers;
                    Ok(state)
                },
                Err(e) => Err(e),
            }
        },
        MaterialLineType::EmissiveColor => {
            match parse_numbers(&tokens, 1) {
                Ok(numbers) => {
                    state.current.emissive_color = numbers;
                    Ok(state)
                },
                Err(e) => Err(e),
            }
        },
        MaterialLineType::Shininess => {
            match parse_numbers(&tokens, 1) {
                Ok(numbers) => {
                    if numbers.len() == 0 {
                        return Err(LoadError::MalformedData);
                    }
                    assert(numbers@[0]@ == operands[0]);
                    state.current.shininess = numbers[0].clone();
                    Ok(state)
                },
                Err(e) => Err(e),
            }
        },
        MaterialLineType::Comment => Ok(state),
        MaterialLineType::Unknown => Ok(state),
    }
}

/// Reads a material library from its text.
///
/// The result is the table that [`materials_of`] defines for the text, or
/// the error of the first line that fails.
pub fn load_material_file(text: &[u8]) -> (r: Result<MaterialTable, LoadError>)
    ensures
        match r {
            Ok(table) => materials_of(text@) == Ok::<MaterialMap, LoadError>(table@),
            Err(e) => materials_of(text@) == Err::<MaterialMap, LoadError>(e),
        },
{
    let n: usize = text.len();
    let mut state = Library { table: MaterialTable::new(), current: Material::blank(Vec::new()) };
    let mut pos: usize = 0;
    while pos < n
        invariant
            pos <= n,
            n == text.len(),
            library_run(library_start(), lines_of(text@)) == library_run(
                state@,
                lines_from(text@, pos as int),
            ),
        decreases n - pos,
    {
        let end: usize = find_line_end(text, pos);
        let line: &[u8] = vstd::slice::slice_subrange(text, pos, end);
        let ghost lines = lines_from(text@, pos as int);
        let ghost before = state@;
        proof {
            assert(lines[0] == line@);
            assert(lines.drop_first() == lines_from(text@, end + 1));
        }
        match library_line(state, line) {
            Ok(next) => {
                state = next;
            },
            Err(e) => {
                return Err(e);
            },
        }
        pos = if end < n {
            end + 1
        } else {
            n
        };
    }
    let mut table = state.table;
    table.insert(state.current);
    Ok(table)
}

} // verus!
