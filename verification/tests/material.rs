use model_loader::error::LoadError;
use model_loader::library::{classify_material_line, load_material_file, MaterialLineType};
use model_loader::geometry::{classify_line, lookup_library, Geometry, LibraryFile, LineType};
use model_loader::material::{Material, MaterialTable};
use model_loader::model::{finish, flatten};
use model_loader::numeral::Numeral;
use model_loader::pool::{parse_numbers, Normal, Texture, Vertex};
use model_loader::program::Program;
use model_loader::text::split_tokens;

fn texts(numbers: &Vec<Numeral>) -> Vec<String> {
    numbers.iter().map(|n| String::from_utf8(n.as_bytes().to_vec()).unwrap()).collect()
}

fn numbers(tokens: &[&str]) -> Vec<Numeral> {
    tokens.iter().map(|t| Numeral::parse(t.as_bytes()).unwrap()).collect()
}

fn table(text: &str) -> MaterialTable {
    load_material_file(text.as_bytes()).ok().unwrap()
}

#[test]
fn a_later_definition_takes_the_place_of_an_earlier_one() {
    let text = "newmtl a\nKd 1 0 0\nNs 5\nnewmtl b\nKd 0 1 0\nnewmtl a\nKa 0.1 0.2 0.3\n";
    let t = table(text);
    let a = t.get(b"a").unwrap();
    assert_eq!(texts(&a.ambient_percentage), vec!["0.1", "0.2", "0.3"]);
    // nothing of the earlier definition is left
    assert_eq!(a.diffuse_color.len(), 0);
    assert_eq!(a.shininess.as_bytes(), b"0.0");
    assert_eq!(texts(&t.get(b"b").unwrap().diffuse_color), vec!["0", "1", "0"]);

    let middle = "newmtl a\nKd 1 0 0\nnewmtl a\nKd 0 0 1\nnewmtl b\n";
    let t = table(middle);
    assert_eq!(texts(&t.get(b"a").unwrap().diffuse_color), vec!["0", "0", "1"]);
    assert!(t.contains(b"b"));
}

#[test]
fn the_properties_of_a_material() {
    let text = "# a library\nnewmtl shiny\nKa 0.1 0.1 0.1\nKd 0.5 0.6 0.7\nKs 1 1 1\n\
                Ke 0 0 0\nNs 96.5 7\nillum 2\nmap_Kd wood.png\n";
    let t = table(text);
    let m = t.get(b"shiny").unwrap();
    assert_eq!(m.name, b"shiny".to_vec());
    assert_eq!(texts(&m.ambient_percentage), vec!["0.1", "0.1", "0.1"]);
    assert_eq!(texts(&m.diffuse_color), vec!["0.5", "0.6", "0.7"]);
    assert_eq!(texts(&m.specular_color), vec!["1", "1", "1"]);
    assert_eq!(texts(&m.emissive_color), vec!["0", "0", "0"]);
    assert_eq!(m.shininess.as_bytes(), b"96.5");
    assert!(!t.contains(b""));
    assert!(!t.contains(b"other"));
    assert!(t.get(b"other").is_none());
}

#[test]
fn properties_default_to_nothing_and_zero() {
    let t = table("newmtl bare\n");
    let m = t.get(b"bare").unwrap();
    assert_eq!(m.ambient_percentage.len(), 0);
    assert_eq!(m.diffuse_color.len(), 0);
    assert_eq!(m.specular_color.len(), 0);
    assert_eq!(m.emissive_color.len(), 0);
    assert_eq!(m.shininess.as_bytes(), b"0.0");
    assert_eq!(m.shininess.as_bytes(), Numeral::zero().as_bytes());
}

#[test]
fn a_library_without_a_name_keeps_its_material_under_the_empty_name() {
    let t = table("Kd 1 2 3\n");
    let m = t.get(b"").unwrap();
    assert_eq!(m.name.len(), 0);
    assert_eq!(texts(&m.diffuse_color), vec!["1", "2", "3"]);
    let empty = table("");
    assert!(empty.contains(b""));
    assert_eq!(empty.get(b"").unwrap().shininess.as_bytes(), b"0.0");
}

#[test]
fn lines_before_the_first_name_are_lost_when_a_name_follows() {
    let t = table("Kd 1 2 3\nnewmtl a\n");
    assert!(!t.contains(b""));
    assert_eq!(t.get(b"a").unwrap().diffuse_color.len(), 0);
}

#[test]
fn a_colour_line_replaces_the_earlier_one() {
    let t = table("newmtl a\nKd 1 2 3\nKd 4 5\nKd\n");
    assert_eq!(t.get(b"a").unwrap().diffuse_color.len(), 0);
    let t = table("newmtl a\nKd 1 2 3\nKd 4 5\n");
    assert_eq!(texts(&t.get(b"a").unwrap().diffuse_color), vec!["4", "5"]);
}

#[test]
fn malformed_libraries() {
    let malformed = |text: &str| {
        matches!(load_material_file(text.as_bytes()), Err(LoadError::MalformedData))
    };
    assert!(malformed("newmtl\n"));
    assert!(malformed("newmtl a\nKa 1 x\n"));
    assert!(malformed("newmtl a\nKd 1 2 3f\n"));
    assert!(malformed("newmtl a\nKs one\n"));
    assert!(malformed("newmtl a\nKe 0 0 0 .\n"));
    assert!(malformed("newmtl a\nNs\n"));
    assert!(malformed("newmtl a\nNs 1 x\n"));
    assert!(malformed("newmtl a\nNs x\n"));
    assert!(!malformed("newmtl a\nNs 1 2\n"));
}

#[test]
fn a_library_line_that_is_not_utf8_is_a_read_error() {
    let mut text = b"newmtl a\nKd 1 2 3 ".to_vec();
    text.push(0xc3);
    text.push(b'\n');
    assert!(matches!(load_material_file(&text), Err(LoadError::LineRead)));
    // the first failing line decides
    let mut late = b"newmtl\n".to_vec();
    late.push(0xc3);
    assert!(matches!(load_material_file(&late), Err(LoadError::MalformedData)));
}

#[test]
fn kinds_of_library_lines() {
    assert_eq!(classify_material_line(b"newmtl"), MaterialLineType::NewMaterial);
    assert_eq!(classify_material_line(b"Ka"), MaterialLineType::AmbientPercentage);
    assert_eq!(classify_material_line(b"Kd"), MaterialLineType::DiffuseColor);
    assert_eq!(classify_material_line(b"Ks"), MaterialLineType::SpecularColor);
    assert_eq!(classify_material_line(b"Ke"), MaterialLineType::EmissiveColor);
    assert_eq!(classify_material_line(b"Ns"), MaterialLineType::Shininess);
    assert_eq!(classify_material_line(b"#"), MaterialLineType::Comment);
    assert_eq!(classify_material_line(b"#x"), MaterialLineType::Unknown);
    assert_eq!(classify_material_line(b"ka"), MaterialLineType::Unknown);
    assert_eq!(classify_material_line(b"Kdd"), MaterialLineType::Unknown);
    assert_eq!(classify_material_line(b""), MaterialLineType::Unknown);
}

#[test]
fn kinds_of_geometry_lines() {
    assert_eq!(classify_line(b"v"), LineType::Vertex);
    assert_eq!(classify_line(b"vt"), LineType::Texture);
    assert_eq!(classify_line(b"vn"), LineType::Normal);
    assert_eq!(classify_line(b"f"), LineType::Face);
    assert_eq!(classify_line(b"#"), LineType::Comment);
    assert_eq!(classify_line(b"mtllib"), LineType::MaterialReference);
    assert_eq!(classify_line(b"usemtl"), LineType::UseMaterial);
    assert_eq!(classify_line(b"V"), LineType::Unknown);
    assert_eq!(classify_line(b"vp"), LineType::Unknown);
    assert_eq!(classify_line(b"usemtl2"), LineType::Unknown);
    assert_eq!(classify_line(b""), LineType::Unknown);
}

#[test]
fn the_table_puts_takes_and_finds() {
    let mut t = MaterialTable::new();
    assert!(!t.contains(b"a"));
    t.insert(Material::blank(b"a".to_vec()));
    let mut second = Material::blank(b"b".to_vec());
    second.shininess = Numeral::parse(b"7").unwrap();
    t.insert(second);
    assert!(t.contains(b"a"));
    assert!(t.contains(b"b"));
    let mut again = Material::blank(b"a".to_vec());
    again.shininess = Numeral::parse(b"9").unwrap();
    t.insert(again);
    assert_eq!(t.get(b"a").unwrap().shininess.as_bytes(), b"9");
    assert_eq!(t.get(b"b").unwrap().shininess.as_bytes(), b"7");
    let taken = t.remove(b"a").unwrap();
    assert_eq!(taken.shininess.as_bytes(), b"9");
    assert!(!t.contains(b"a"));
    assert!(t.contains(b"b"));
    assert!(t.remove(b"a").is_none());
    assert!(t.remove(b"b").is_some());
    assert!(t.remove(b"b").is_none());
}

#[test]
fn numbers_of_a_line() {
    let tokens = split_tokens(b"v 1 2.5 -3e2");
    let parsed = parse_numbers(&tokens, 1).ok().unwrap();
    assert_eq!(texts(&parsed), vec!["1", "2.5", "-3e2"]);
    assert_eq!(parse_numbers(&tokens, 4).ok().unwrap().len(), 0);
    assert!(matches!(parse_numbers(&tokens, 0), Err(LoadError::MalformedData)));
}

#[test]
fn attributes_from_numbers() {
    let v = Vertex::from_numbers(numbers(&["1", "2", "3"])).ok().unwrap();
    assert_eq!(v.x.as_bytes(), b"1");
    assert_eq!(v.y.as_bytes(), b"2");
    assert_eq!(v.z.as_bytes(), b"3");
    assert_eq!(v.w.as_bytes(), b"1.0");
    let v = Vertex::from_numbers(numbers(&["1", "2", "3", "0.5", "9"])).ok().unwrap();
    assert_eq!(v.w.as_bytes(), b"0.5");
    assert!(matches!(Vertex::from_numbers(numbers(&["1", "2"])), Err(LoadError::MalformedData)));
    let n = Normal::from_numbers(numbers(&["4", "5", "6", "7"])).ok().unwrap();
    assert_eq!((n.x.as_bytes(), n.y.as_bytes(), n.z.as_bytes()), (&b"4"[..], &b"5"[..], &b"6"[..]));
    assert!(matches!(Normal::from_numbers(numbers(&["1", "2"])), Err(LoadError::MalformedData)));
    let t = Texture::from_numbers(numbers(&["8", "9", "10"])).ok().unwrap();
    assert_eq!((t.x.as_bytes(), t.y.as_bytes()), (&b"8"[..], &b"9"[..]));
    assert!(matches!(Texture::from_numbers(numbers(&["1"])), Err(LoadError::MalformedData)));
    assert!(matches!(Texture::from_numbers(Vec::new()), Err(LoadError::MalformedData)));
}

#[test]
fn libraries_are_found_by_name() {
    let libraries = vec![
        LibraryFile { name: b"a.mtl".to_vec(), contents: b"one".to_vec() },
        LibraryFile { name: b"b.mtl".to_vec(), contents: b"two".to_vec() },
        LibraryFile { name: b"a.mtl".to_vec(), contents: b"three".to_vec() },
    ];
    assert_eq!(lookup_library(&libraries, b"a.mtl"), Some(&b"one"[..]));
    assert_eq!(lookup_library(&libraries, b"b.mtl"), Some(&b"two"[..]));
    assert_eq!(lookup_library(&libraries, b"c.mtl"), None);
    assert_eq!(lookup_library(&Vec::new(), b"a.mtl"), None);
}

#[test]
fn flattening_and_finishing_a_state() {
    let mut state = Geometry::new();
    state.vertices.push(Vertex::from_numbers(numbers(&["1", "2", "3"])).ok().unwrap());
    state.faces.push(model_loader::face::Face {
        points: vec![model_loader::face::FacePoint {
            vertex_index: 1,
            texture_index: 0,
            normal_index: 0,
        }],
    });
    let flat = flatten(&state.faces, &state.vertices, &state.normals, &state.textures);
    assert_eq!(texts(&flat.ok().unwrap()), vec!["1", "2", "3", "0.0", "0.0"]);
    let model = finish(state).ok().unwrap();
    assert_eq!(model.material_indices, vec![3]);
    assert_eq!(model.vertices.len(), 5);

    let mut bad = Geometry::new();
    bad.faces.push(model_loader::face::Face {
        points: vec![model_loader::face::FacePoint {
            vertex_index: 1,
            texture_index: 0,
            normal_index: 0,
        }],
    });
    assert!(matches!(finish(bad), Err(LoadError::MalformedData)));
}

#[test]
fn a_program_is_known_by_its_identifier() {
    let program = Program::from_id(7);
    assert_eq!(program.id(), 7);
}
