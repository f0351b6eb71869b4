use vstd::prelude::*;
use vstd::arithmetic::div_mod::{lemma_fundamental_div_mod, lemma_mod_bound};
use vstd::arithmetic::mul::{lemma_mul_inequality, lemma_mul_is_commutative};
use crate::bitmap::Bitmap;
use crate::compositor::imin;

verus! {

/// Splits the raw byte stream of an external decoder into fixed-size RGBA
/// frames of exactly `width * height * 4` bytes each, in stream order. A
/// short trailing chunk is a clean end of stream and is dropped. When a
/// frame cap is given, at most that many frames are taken even if more data
/// remains; without one, every complete frame in the stream is taken.
pub fn split_frames(data: &Vec<u8>, width: u32, height: u32, cap: Option<usize>) -> (frames:
    Vec<Bitmap>)
    requires
        width > 0,
        height > 0,
        width * height * 4 <= usize::MAX,
    ensures
        ({
            let fs = width * height * 4;
            let full = data@.len() as int / fs;
            let want = match cap {
                Some(c) => imin(c as int, full),
                None => full,
            };
            &&& frames@.len() == want
            &&& (cap matches Some(c) ==> frames@.len() <= c)
            &&& (cap is None ==> frames@.len() == full)
            &&& forall|i: int| 0 <= i < frames@.len() ==> {
                &&& (#[trigger] frames@[i]).width == width
                &&& frames@[i].height == height
                &&& frames@[i].wf()
                &&& frames@[i].data@ == data@.subrange(i * fs, (i + 1) * fs)
            }
        }),
{
    proof {
        assert(width * height > 0 && width * height * 4 > 0) by (nonlinear_arith)
            requires
                width > 0,
                height > 0,
        ;
    }
    let fs: usize = (width as usize) * (height as usize) * 4;
    let dlen: usize = data.len();
    let full: usize = dlen / fs;
    let want: usize = match cap {
        Some(c) => if c < full { c } else { full },
        None => full,
    };
    proof {
        lemma_fundamental_div_mod(data@.len() as int, fs as int);
        lemma_mod_bound(data@.len() as int, fs as int);
        lemma_mul_is_commutative(fs as int, full as int);
    }
    let mut frames: Vec<Bitmap> = Vec::new();
    let mut i: usize = 0;
    while i < want
        invariant
            fs == width * height * 4,
            fs > 0,
            full == data@.len() as int / (fs as int),
            dlen == data@.len(),
            want <= full,
            full * fs <= dlen,
            i <= want,
            frames@.len() == i,
            forall|k: int| 0 <= k < i ==> {
                &&& (#[trigger] frames@[k]).width == width
                &&& frames@[k].height == height
                &&& frames@[k].wf()
                &&& frames@[k].data@ == data@.subrange(k * fs, (k + 1) * fs)
            },
        decreases want - i,
    {
        proof {
            lemma_mul_inequality(i as int + 1, full as int, fs as int);
            lemma_mul_inequality(i as int, full as int, fs as int);
            assert(i * fs >= 0) by (nonlinear_arith)
                requires
                    i >= 0,
                    fs >= 0,
            ;
            assert((i + 1) * fs == i * fs + fs) by (nonlinear_arith);
        }
        let start: usize = i * fs;
        let mut d: Vec<u8> = Vec::new();
        let mut j: usize = 0;
        while j < fs
            invariant
                dlen == data@.len(),
                start + fs <= dlen,
                j <= fs,
                d@.len() == j,
                forall|k: int| 0 <= k < j ==> d@[k] == data@[start + k],
            decreases fs - j,
        {
            d.push(data[start + j]);
            j = j + 1;
        }
        proof {
            assert(d@ =~= data@.subrange(i as int * fs, (i as int + 1) * fs));
        }
        frames.push(Bitmap { width, height, data: d });
        i = i + 1;
    }
    frames
}

} // verus!
