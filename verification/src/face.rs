//! Faces: the index triples that a face statement lists.

use vstd::prelude::*;
use vstd::slice::slice_subrange;
use crate::numeral::is_digit;
use crate::text::contents;

verus! {

/// One corner of a face: indices into the pools of positions, of texture
/// coordinates and of normals. Indices count from 1; in the second and the
/// third place 0 says that the corner has none.
#[derive(Clone, Copy, Debug, PartialEq, Eq, Structural)]
pub struct FacePoint {
    pub vertex_index: usize,
    pub texture_index: usize,
    pub normal_index: usize,
}

/// The corners of one face, in the order of the statement.
#[derive(Debug)]
pub struct Face {
    pub points: Vec<FacePoint>,
}

impl View for Face {
    type V = Seq<FacePoint>;

    open spec fn view(&self) -> Seq<FacePoint> {
        self.points@
    }
}

/// The contents of faces, one for one.
pub open spec fn face_views(faces: Seq<Face>) -> Seq<Seq<FacePoint>> {
    Seq::new(faces.len(), |i: int| faces[i]@)
}

/// What a digit counts; 0 for any other byte.
pub open spec fn digit_value(b: u8) -> nat {
    if is_digit(b) {
        (b - 0x30) as nat
    } else {
        0
    }
}

/// The number that a run of digits denotes in base ten; 0 for the empty run.
pub open spec fn decimal_value(s: Seq<u8>) -> nat
    decreases s.len(),
{
    if s.len() == 0 {
        0
    } else {
        decimal_value(s.drop_last()) * 10 + digit_value(s.last())
    }
}

/// Whether every byte is a digit.
pub open spec fn all_digits(s: Seq<u8>) -> bool {
    forall|i: int| 0 <= i < s.len() ==> is_digit(#[trigger] s[i])
}

/// The digits of an index: the part itself, without its plus sign where it
/// starts with one.
pub open spec fn index_digits(part: Seq<u8>) -> Seq<u8> {
    if part.len() > 0 && part[0] == 0x2b {
        part.skip(1)
    } else {
        part
    }
}

/// The index that a part spells: at least one digit, after a plus sign or
/// none, denoting a number that fits the machine word.
pub open spec fn index_of(part: Seq<u8>) -> Option<usize> {
    let d = index_digits(part);
    if d.len() > 0 && all_digits(d) && decimal_value(d) <= usize::MAX {
        Some(decimal_value(d) as usize)
    } else {
        None
    }
}

/// The index that a part of a face token stands for: 0 where it is empty.
pub open spec fn part_index(part: Seq<u8>) -> Option<usize> {
    if part.len() == 0 {
        Some(0usize)
    } else {
        index_of(part)
    }
}

/// The end of the part that holds byte `i`: the index of the first slash
/// from `i` on, or the length of `s`.
pub open spec fn part_end(s: Seq<u8>, i: int) -> int
    decreases s.len() - i,
{
    if i >= s.len() || s[i] == 0x2f {
        i
    } else {
        part_end(s, i + 1)
    }
}

/// A part ends at or after its start and within the token.
pub proof fn lemma_part_end_bounds(s: Seq<u8>, i: int)
    requires
        0 <= i <= s.len(),
    ensures
        i <= part_end(s, i) <= s.len(),
    decreases s.len() - i,
{
    if i < s.len() && s[i] != 0x2f {
        lemma_part_end_bounds(s, i + 1);
    }
}

/// The parts of `s` from `i` on: what stands between its slashes. A token
/// with k slashes has k + 1 parts, empty ones among them.
pub open spec fn parts_from(s: Seq<u8>, i: int) -> Seq<Seq<u8>>
    decreases s.len() + 1 - i,
{
    if i < 0 || i > s.len() {
        Seq::empty()
    } else {
        proof {
            lemma_part_end_bounds(s, i);
        }
        seq![s.subrange(i, part_end(s, i))] + parts_from(s, part_end(s, i) + 1)
    }
}

/// The parts of a face token.
pub open spec fn parts_of(s: Seq<u8>) -> Seq<Seq<u8>> {
    parts_from(s, 0)
}

/// Whether every part of a face token is empty or an index.
pub open spec fn parts_valid(parts: Seq<Seq<u8>>) -> bool {
    forall|k: int| 0 <= k < parts.len() ==> part_index(#[trigger] parts[k]) is Some
}

/// The index in place `k` of the parts, 0 where there are fewer parts.
pub open spec fn index_at(parts: Seq<Seq<u8>>, k: int) -> usize {
    if 0 <= k < parts.len() {
        part_index(parts[k]).unwrap()
    } else {
        0
    }
}

/// The corner that a face token denotes. Every part has to be empty or an
/// index, also those after the third, which are not used.
pub open spec fn face_point_of(token: Seq<u8>) -> Option<FacePoint> {
    let parts = parts_of(token);
    if parts_valid(parts) {
        Some(
            FacePoint {
                vertex_index: index_at(parts, 0),
                texture_index: index_at(parts, 1),
                normal_index: index_at(parts, 2),
            },
        )
    } else {
        None
    }
}

/// Whether every one of `tokens` denotes a corner.
pub open spec fn all_face_points(tokens: Seq<Seq<u8>>) -> bool {
    forall|k: int| 0 <= k < tokens.len() ==> face_point_of(#[trigger] tokens[k]) is Some
}

/// The corners that `tokens` denote, one for one.
pub open spec fn face_points_of(tokens: Seq<Seq<u8>>) -> Seq<FacePoint> {
    Seq::new(tokens.len(), |k: int| face_point_of(tokens[k]).unwrap())
}

/// A run of digits denotes at least what any of its prefixes denotes.
pub proof fn lemma_decimal_value_prefix(s: Seq<u8>, k: int)
    requires
        0 <= k <= s.len(),
    ensures
        decimal_value(s.take(k)) <= decimal_value(s),
    decreases s.len(),
{
    if k == s.len() {
        assert(s.take(k) == s);
    } else {
        lemma_decimal_value_prefix(s.drop_last(), k);
        assert(s.drop_last().take(k) == s.take(k));
    }
}

/// Reads an index: digits after a plus sign or none.
pub fn parse_index(part: &[u8]) -> (r: Option<usize>)
    ensures
        r == index_of(part@),
{
    let n: usize = part.len();
    let start: usize = if n > 0 && part[0] == 0x2b {
        1
    } else {
        0
    };
    let ghost d = index_digits(part@);
    if start == n {
        return None;
    }
    let mut value: usize = 0;
    let mut i: usize = start;
    while i < n
        invariant
            start <= i <= n,
            n == part.len(),
            d == index_digits(part@),
            d.len() == n - start,
            forall|j: int| 0 <= j < d.len() ==> d[j] == part@[start + j],
            value == decimal_value(d.take(i - start)),
            all_digits(d.take(i - start)),
        decreases n - i,
    {
        let b: u8 = part[i];
        proof {
            assert(d.take(i - start + 1).drop_last() == d.take(i - start));
            assert(d.take(i - start + 1).last() == b);
        }
        if !(0x30 <= b && b <= 0x39) {
            assert(!is_digit(d[i - start]));
            return None;
        }
        assert(is_digit(d[i - start]));
        let digit: usize = (b - 0x30) as usize;
        if value > (usize::MAX - digit) / 10 {
            proof {
                assert(decimal_value(d.take(i - start + 1)) == value * 10 + digit);
                lemma_decimal_value_prefix(d, i - start + 1);
            }
            return None;
        }
        value = value * 10 + digit;
        i += 1;
    }
    proof {
        assert(d.take(n - start) == d);
    }
    Some(value)
}

fn find_part_end(s: &[u8], start: usize) -> (end: usize)
    requires
        start <= s.len(),
    ensures
        end == part_end(s@, start as int),
        start <= end <= s.len(),
{
    let n: usize = s.len();
    let mut i: usize = start;
    while i < n && s[i] != 0x2f
        invariant
            start <= i <= n,
            n == s.len(),
            part_end(s@, start as int) == part_end(s@, i as int),
        decreases n - i,
    {
        i += 1;
    }
    i
}

/// Reads one corner from a face token.
pub fn parse_face_point(token: &[u8]) -> (r: Option<FacePoint>)
    ensures
        r == face_point_of(token@),
{
    let n: usize = token.len();
    let mut i: usize = 0;
    let mut place: usize = 0;
    let mut vertex_index: usize = 0;
    let mut texture_index: usize = 0;
    let mut normal_index: usize = 0;
    let mut finished: bool = false;
    let ghost parts = parts_of(token@);
    let ghost mut seen: Seq<Seq<u8>> = Seq::empty();
    while !finished
        invariant
            i <= n,
            n == token.len(),
            parts == parts_of(token@),
            !finished ==> parts == seen + parts_from(token@, i as int),
            finished ==> parts == seen,
            parts_valid(seen),
            place == if seen.len() < 3 { seen.len() } else { 3 },
            vertex_index == index_at(seen, 0),
            texture_index == index_at(seen, 1),
            normal_index == index_at(seen, 2),
        decreases n - i + if finished { 0int } else { 1int },
    {
        let end: usize = find_part_end(token, i);
        let part: &[u8] = slice_subrange(token, i, end);
        let index: usize = if part.len() == 0 {
            0
        } else {
            match parse_index(part) {
                Some(index) => index,
                None => {
                    proof {
                        assert(parts[seen.len() as int] == part@);
                    }
                    return None;
                },
            }
        };
        if place == 0 {
            vertex_index = index;
        } else if place == 1 {
            texture_index = index;
        } else if place == 2 {
            normal_index = index;
        }
        if place < 3 {
            place += 1;
        }
        proof {
            let rest = parts_from(token@, end + 1);
            assert(parts == (seen + seq![part@]) + rest);
            seen = seen + seq![part@];
            if end >= n {
                assert(parts == seen);
            }
        }
        if end >= n {
            finished = true;
        } else {
            i = end + 1;
        }
    }
    Some(FacePoint { vertex_index, texture_index, normal_index })
}

/// Reads the corners of a face from the tokens that follow the directive.
pub fn parse_face(tokens: &Vec<&[u8]>, from: usize) -> (r: Option<Face>)
    requires
        from <= tokens.len(),
    ensures
        r is Some <==> all_face_points(contents(tokens@).skip(from as int)),
        r matches Some(face) ==> face@ == face_points_of(contents(tokens@).skip(from as int)),
{
    let n: usize = tokens.len();
    let ghost rest = contents(tokens@).skip(from as int);
    let mut points: Vec<FacePoint> = Vec::new();
    let mut i: usize = from;
    while i < n
        invariant
            from <= i <= n,
            n == tokens.len(),
            rest == contents(tokens@).skip(from as int),
            all_face_points(rest.take(i - from)),
            points@ == face_points_of(rest.take(i - from)),
        decreases n - i,
    {
        match parse_face_point(tokens[i]) {
            Some(point) => {
                proof {
                    assert(rest[i - from] == tokens@[i as int]@);
                    assert(face_points_of(rest.take(i - from + 1)) == face_points_of(
                        rest.take(i - from),
                    ).push(point));
                }
                points.push(point);
            },
            None => {
                proof {
                    assert(rest[i - from] == tokens@[i as int]@);
                }
                return None;
            },
        }
        i += 1;
    }
    proof {
        assert(rest.take(n - from) == rest);
    }
    Some(Face { points })
}

} // verus!
