//! The three attribute kinds that faces refer to, and the numbers they are
//! made of.

use vstd::prelude::*;
use crate::error::LoadError;
use crate::numeral::{all_decimal, one_text, Numeral};
use crate::text::contents;

verus! {

/// The texts of literals, one for one.
pub open spec fn numeral_views(v: Seq<Numeral>) -> Seq<Seq<u8>> {
    Seq::new(v.len(), |i: int| v[i]@)
}

/// Takes the tokens from place `from` on as decimal literals.
///
/// Succeeds exactly where each of them is one, and then hands out their
/// texts in order; otherwise the data is malformed.
pub fn parse_numbers(tokens: &Vec<&[u8]>, from: usize) -> (r: Result<Vec<Numeral>, LoadError>)
    requires
        from <= tokens.len(),
    ensures
        r is Ok <==> all_decimal(contents(tokens@).skip(from as int)),
        r matches Ok(numbers) ==> numeral_views(numbers@) == contents(tokens@).skip(from as int),
        r matches Err(e) ==> e == LoadError::MalformedData,
{
    let n: usize = tokens.len();
    let ghost rest = contents(tokens@).skip(from as int);
    let mut numbers: Vec<Numeral> = Vec::new();
    let mut i: usize = from;
    while i < n
        invariant
            from <= i <= n,
            n == tokens.len(),
            rest == contents(tokens@).skip(from as int),
            all_decimal(rest.take(i - from)),
            numeral_views(numbers@) == rest.take(i - from),
        decreases n - i,
    {
        proof {
            assert(rest[i - from] == tokens@[i as int]@);
        }
        match Numeral::parse(tokens[i]) {
            Some(number) => {
                proof {
                    assert(numeral_views(numbers@.push(number)) == numeral_views(numbers@).push(
                        number@,
                    ));
                    assert(rest.take(i - from + 1) == rest.take(i - from).push(rest[i - from]));
                }
                numbers.push(number);
            },
            None => {
                return Err(LoadError::MalformedData);
            },
        }
        i += 1;
    }
    proof {
        assert(rest.take(n - from) == rest);
    }
    Ok(numbers)
}

/// What a position is: four numbers.
pub struct VertexView {
    pub x: Seq<u8>,
    pub y: Seq<u8>,
    pub z: Seq<u8>,
    pub w: Seq<u8>,
}

/// What a normal is: three numbers.
pub struct NormalView {
    pub x: Seq<u8>,
    pub y: Seq<u8>,
    pub z: Seq<u8>,
}

/// What a texture coordinate is: two numbers.
pub struct TextureView {
    pub x: Seq<u8>,
    pub y: Seq<u8>,
}

/// A position. The fourth component is `1.0` where the statement gave
/// three.
pub struct Vertex {
    pub x: Numeral,
    pub y: Numeral,
    pub z: Numeral,
    pub w: Numeral,
}

/// A normal.
pub struct Normal {
    pub x: Numeral,
    pub y: Numeral,
    pub z: Numeral,
}

/// A texture coordinate.
pub struct Texture {
    pub x: Numeral,
    pub y: Numeral,
}

impl View for Vertex {
    type V = VertexView;

    open spec fn view(&self) -> VertexView {
        VertexView { x: self.x@, y: self.y@, z: self.z@, w: self.w@ }
    }
}

impl View for Normal {
    type V = NormalView;

    open spec fn view(&self) -> NormalView {
        NormalView { x: self.x@, y: self.y@, z: self.z@ }
    }
}

impl View for Texture {
    type V = TextureView;

    open spec fn view(&self) -> TextureView {
        TextureView { x: self.x@, y: self.y@ }
    }
}

/// The position that the numbers of a statement make: the first three, and
/// the fourth or `1.0`. Fewer than three make none.
pub open spec fn vertex_of(numbers: Seq<Seq<u8>>) -> Option<VertexView> {
    if numbers.len() < 3 {
        None
    } else {
        Some(
            VertexView {
                x: numbers[0],
                y: numbers[1],
                z: numbers[2],
                w: if numbers.len() > 3 {
                    numbers[3]
                } else {
                    one_text()
                },
            },
        )
    }
}

/// The normal that the numbers of a statement make: the first three. Fewer
/// make none.
pub open spec fn normal_of(numbers: Seq<Seq<u8>>) -> Option<NormalView> {
    if numbers.len() < 3 {
        None
    } else {
        Some(NormalView { x: numbers[0], y: numbers[1], z: numbers[2] })
    }
}

/// The texture coordinate that the numbers of a statement make: the first
/// two. Fewer make none.
pub open spec fn texture_of(numbers: Seq<Seq<u8>>) -> Option<TextureView> {
    if numbers.len() < 2 {
        None
    } else {
        Some(TextureView { x: numbers[0], y: numbers[1] })
    }
}

impl Vertex {
    /// Makes a position of the numbers of a `v` line; fewer than three are
    /// malformed data.
    pub fn from_numbers(numbers: Vec<Numeral>) -> (r: Result<Vertex, LoadError>)
        ensures
            match r {
                Ok(v) => vertex_of(numeral_views(numbers@)) == Some(v@),
                Err(e) => e == LoadError::MalformedData && vertex_of(numeral_views(numbers@))
                    is None,
            },
    {
        if numbers.len() < 3 {
            return Err(LoadError::MalformedData);
        }
        let w: Numeral = if numbers.len() > 3 {
            numbers[3].clone()
        } else {
            Numeral::one()
        };
        Ok(Vertex { x: numbers[0].clone(), y: numbers[1].clone(), z: numbers[2].clone(), w })
    }
}

impl Normal {
    /// Makes a normal of the numbers of a `vn` line; fewer than three are
    /// malformed data.
    pub fn from_numbers(numbers: Vec<Numeral>) -> (r: Result<Normal, LoadError>)
        ensures
            match r {
                Ok(v) => normal_of(numeral_views(numbers@)) == Some(v@),
                Err(e) => e == LoadError::MalformedData && normal_of(numeral_views(numbers@))
                    is None,
            },
    {
        if numbers.len() < 3 {
            return Err(LoadError::MalformedData);
        }
        Ok(Normal { x: numbers[0].clone(), y: numbers[1].clone(), z: numbers[2].clone() })
    }
}

impl Texture {
    /// Makes a texture coordinate of the numbers of a `vt` line; fewer than
    /// two are malformed data.
    pub fn from_numbers(numbers: Vec<Numeral>) -> (r: Result<Texture, LoadError>)
        ensures
            match r {
                Ok(v) => texture_of(numeral_views(numbers@)) == Some(v@),
                Err(e) => e == LoadError::MalformedData && texture_of(numeral_views(numbers@))
                    is None,
            },
    {
        if numbers.len() < 2 {
            return Err(LoadError::MalformedData);
        }
        Ok(Texture { x: numbers[0].clone(), y: numbers[1].clone() })
    }
}

/// The contents of positions, one for one.
pub open spec fn vertex_views(v: Seq<Vertex>) -> Seq<VertexView> {
    Seq::new(v.len(), |i: int| v[i]@)
}

/// The contents of normals, one for one.
pub open spec fn normal_views(v: Seq<Normal>) -> Seq<NormalView> {
    Seq::new(v.len(), |i: int| v[i]@)
}

/// The contents of texture coordinates, one for one.
pub open spec fn texture_views(v: Seq<Texture>) -> Seq<TextureView> {
    Seq::new(v.len(), |i: int| v[i]@)
}

} // verus!
