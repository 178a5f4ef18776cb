use vstd::prelude::*;

verus! {

/// Bytes per texel: red, green, blue.
pub const CHANNELS: usize = 3;

/// Where the texel of column `i` and row `j` starts in a row-major buffer of
/// `width` columns.
pub open spec fn texel_offset(width: nat, i: nat, j: nat) -> nat {
    (j * width + i) * 3
}

/// The column or row that a lookup lands on: past the last one, the last one.
pub open spec fn clamp_index(i: nat, count: nat) -> nat
    recommends
        count > 0,
{
    if i < count {
        i
    } else {
        (count - 1) as nat
    }
}

/// A decoded image: `height` rows of `width` texels, three bytes each.
pub struct ImageTexture {
    width: u32,
    height: u32,
    data: Vec<u8>,
}

impl ImageTexture {
    #[verifier::type_invariant]
    spec fn well_formed(self) -> bool {
        &&& self.width > 0
        &&& self.height > 0
        &&& self.data@.len() == self.width * self.height * 3
    }

    /// Number of columns.
    pub closed spec fn columns(self) -> nat {
        self.width as nat
    }

    /// Number of rows.
    pub closed spec fn rows(self) -> nat {
        self.height as nat
    }

    /// The bytes, row by row.
    pub closed spec fn bytes(self) -> Seq<u8> {
        self.data@
    }

    /// Whether a buffer of `len` bytes is an image of `width` by `height`.
    pub open spec fn fits(width: nat, height: nat, len: nat) -> bool {
        width > 0 && height > 0 && len == width * height * 3
    }

    /// Takes a decoded buffer; `None` when it is empty in either direction or
    /// its length is not three bytes for each texel.
    pub fn new(width: u32, height: u32, data: Vec<u8>) -> (texture: Option<ImageTexture>)
        ensures
            texture.is_some() <==> Self::fits(width as nat, height as nat, data@.len()),
            texture matches Some(t) ==> t.columns() == width && t.rows() == height && t.bytes()
                == data@,
    {
        if width == 0 || height == 0 {
            return None;
        }
        assert(width * height <= 0xffff_ffff * 0xffff_ffff) by (nonlinear_arith)
            requires
                width <= 0xffff_ffff,
                height <= 0xffff_ffff,
        ;
        let need: u128 = (width as u128) * (height as u128) * 3;
        if data.len() as u128 != need {
            return None;
        }
        Some(ImageTexture { width, height, data })
    }

    pub fn width(&self) -> (w: u32)
        ensures
            w == self.columns(),
            w > 0,
    {
        proof {
            use_type_invariant(self);
        }
        self.width
    }

    pub fn height(&self) -> (h: u32)
        ensures
            h == self.rows(),
            h > 0,
    {
        proof {
            use_type_invariant(self);
        }
        self.height
    }

    /// The texel at column `i`, row `j`, each clamped to the last column or row.
    pub fn texel(&self, i: u32, j: u32) -> (rgb: (u8, u8, u8))
        ensures
            self.bytes().len() == self.columns() * self.rows() * 3,
            ({
                let at = texel_offset(
                    self.columns(),
                    clamp_index(i as nat, self.columns()),
                    clamp_index(j as nat, self.rows()),
                ) as int;
                &&& at + 2 < self.bytes().len()
                &&& rgb.0 == self.bytes()[at]
                &&& rgb.1 == self.bytes()[at + 1]
                &&& rgb.2 == self.bytes()[at + 2]
            }),
    {
        proof {
            use_type_invariant(self);
        }
        let col: u32 = if i < self.width {
            i
        } else {
            self.width - 1
        };
        let row: u32 = if j < self.height {
            j
        } else {
            self.height - 1
        };
        let len: usize = self.data.len();
        proof {
            lemma_texel_in_bounds(self.width as nat, self.height as nat, col as nat, row as nat);
            assert(self.width * self.height * 3 == len);
        }
        let at: usize = ((row as usize) * (self.width as usize) + (col as usize)) * CHANNELS;
        (self.data[at], self.data[at + 1], self.data[at + 2])
    }
}

/// Every texel of an image lies wholly inside its buffer.
pub proof fn lemma_texel_in_bounds(width: nat, height: nat, i: nat, j: nat)
    requires
        i < width,
        j < height,
    ensures
        texel_offset(width, i, j) + 3 <= width * height * 3,
        j * width + i < width * height,
        j * width >= 0,
{
    assert(j * width + i < width * height && j * width >= 0) by (nonlinear_arith)
        requires
            i < width,
            j < height,
    ;
}

} // verus!
