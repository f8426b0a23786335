//! The records the library works on.
use vstd::prelude::*;

verus! {

/// An identity: its 128-bit id and the embeddings seen of it, oldest first.
#[derive(Clone, Debug)]
pub struct Person {
    pub id: u128,
    pub embeddings: Vec<Vec<i16>>,
}

/// The model of an identity record: its id and its embeddings.
pub type PersonModel = (u128, Seq<Seq<i16>>);

impl Person {
    pub open spec fn model(&self) -> PersonModel {
        (self.id, self.embeddings@.map_values(|e: Vec<i16>| e@))
    }
}

/// A face's rectangle in source-image pixel coordinates.
#[derive(Clone, Copy, Debug, PartialEq, Eq)]
pub struct BoundingBox {
    pub x: i32,
    pub y: i32,
    pub width: i32,
    pub height: i32,
}

/// A size as the crop of an image reads it: the two's-complement bits of
/// the coordinate as an unsigned number.
pub open spec fn as_unsigned(v: i32) -> u32 {
    if v >= 0 {
        v as u32
    } else {
        (v + 0x1_0000_0000) as u32
    }
}

impl BoundingBox {
    /// The rectangle to cut from the source image, as (x, y, width, height):
    /// a corner left of or above the image is moved onto its edge.
    pub fn crop_region(&self) -> (r: (u32, u32, u32, u32))
        ensures
            r.0 == if self.x >= 0 { self.x as int } else { 0 },
            r.1 == if self.y >= 0 { self.y as int } else { 0 },
            r.2 == as_unsigned(self.width),
            r.3 == as_unsigned(self.height),
    {
        let x: u32 = if self.x >= 0 { self.x as u32 } else { 0 };
        let y: u32 = if self.y >= 0 { self.y as u32 } else { 0 };
        (x, y, to_unsigned(self.width), to_unsigned(self.height))
    }
}

fn to_unsigned(v: i32) -> (r: u32)
    ensures
        r == as_unsigned(v),
{
    if v >= 0 {
        v as u32
    } else {
        (v as i64 + 0x1_0000_0000i64) as u32
    }
}

/// The outcome for one detection: where it was found, which identity it was
/// given, and the detector's confidence in parts per million.
#[derive(Clone, Debug)]
pub struct DetectedFace {
    pub image_path: String,
    pub person_id: u128,
    pub confidence: u32,
    pub bbox: BoundingBox,
}

} // verus!
