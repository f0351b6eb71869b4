use vstd::prelude::*;

verus! {

/// One decoded RGBA bitmap: `data` holds `width * height` pixels, row-major,
/// four bytes (red, green, blue, alpha) per pixel, no padding.
#[derive(Debug)]
pub struct Bitmap {
    pub width: u32,
    pub height: u32,
    pub data: Vec<u8>,
}

/// The bytes of a solid fill: every pixel is (r, g, b) at full opacity.
pub open spec fn fill_bytes(len: nat, r: u8, g: u8, b: u8) -> Seq<u8> {
    Seq::new(len, |k: int|
        if k % 4 == 0 { r } else if k % 4 == 1 { g } else if k % 4 == 2 { b } else { 255u8 })
}

impl Bitmap {
    /// The buffer holds exactly four bytes per pixel of the declared size.
    pub open spec fn wf(&self) -> bool {
        self.data@.len() == self.width * self.height * 4
    }

    /// A `width` x `height` bitmap filled with one colour at full opacity.
    pub fn filled(width: u32, height: u32, r: u8, g: u8, b: u8) -> (bm: Bitmap)
        requires
            width * height * 4 <= usize::MAX,
        ensures
            bm.width == width,
            bm.height == height,
            bm.wf(),
            bm.data@ == fill_bytes((width * height * 4) as nat, r, g, b),
    {
        let n: usize = (width as usize) * (height as usize) * 4;
        let mut data: Vec<u8> = Vec::new();
        while data.len() < n
            invariant
                data@.len() <= n,
                n == width * height * 4,
                forall|k: int| 0 <= k < data@.len() ==> data@[k] == fill_bytes(n as nat, r, g, b)[k],
            decreases n - data@.len(),
        {
            let m: usize = data.len() % 4;
            let byte: u8 = if m == 0 { r } else if m == 1 { g } else if m == 2 { b } else { 255 };
            data.push(byte);
        }
        proof {
            assert(data@ =~= fill_bytes((width * height * 4) as nat, r, g, b));
        }
        Bitmap { width, height, data }
    }
}

/// A buffer of `n` zero bytes: the blank, fully transparent canvas.
pub fn zero_buffer(n: usize) -> (v: Vec<u8>)
    ensures
        v@ == Seq::new(n as nat, |k: int| 0u8),
{
    let mut v: Vec<u8> = Vec::new();
    while v.len() < n
        invariant
            v@.len() <= n,
            forall|k: int| 0 <= k < v@.len() ==> v@[k] == 0u8,
        decreases n - v@.len(),
    {
        v.push(0);
    }
    proof {
        assert(v@ =~= Seq::new(n as nat, |k: int| 0u8));
    }
    v
}

} // verus!
