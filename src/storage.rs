use vstd::prelude::*;
use crate::framebuffer::{Framebuffer, RegionError, region_offset};
use crate::rect::Rect;

verus! {

/// `n` copies of `v`.
pub open spec fn run(n: nat, v: u8) -> Seq<u8> {
    Seq::new(n, |i: int| v)
}

/// Run-length decoding: each pair of bytes `(n, v)` stands for `n` copies of
/// `v`; a trailing odd byte stands for nothing.
pub open spec fn rle_decode(d: Seq<u8>) -> Seq<u8>
    decreases d.len(),
{
    if d.len() < 2 {
        Seq::empty()
    } else {
        run(d[0] as nat, d[1]) + rle_decode(d.subrange(2, d.len() as int))
    }
}

proof fn lemma_decode_append(a: Seq<u8>, n: u8, v: u8)
    requires
        a.len() % 2 == 0,
    ensures
        rle_decode(a + seq![n, v]) == rle_decode(a) + run(n as nat, v),
    decreases a.len(),
{
    let b = a + seq![n, v];
    if a.len() == 0 {
        assert(b.subrange(2, b.len() as int) =~= Seq::<u8>::empty());
        assert(rle_decode(Seq::<u8>::empty()) == Seq::<u8>::empty());
        assert(rle_decode(b) =~= run(n as nat, v));
        assert(rle_decode(a) == Seq::<u8>::empty());
        assert(rle_decode(a) + run(n as nat, v) =~= run(n as nat, v));
    } else {
        let rest = a.subrange(2, a.len() as int);
        lemma_decode_append(rest, n, v);
        assert(b.subrange(2, b.len() as int) =~= rest + seq![n, v]);
        assert(rle_decode(b) =~= run(a[0] as nat, a[1]) + (rle_decode(rest) + run(n as nat, v)));
    }
}

/// Run-length encodes `raw`: runs of equal bytes, at most 255 long, each as
/// its length followed by the byte.
pub fn compress(raw: &Vec<u8>) -> (out: Vec<u8>)
    ensures
        rle_decode(out@) == raw@,
        out@.len() % 2 == 0,
{
    let mut out: Vec<u8> = Vec::new();
    let mut i: usize = 0;
    while i < raw.len()
        invariant
            i <= raw.len(),
            out@.len() % 2 == 0,
            rle_decode(out@) == raw@.take(i as int),
        decreases raw.len() - i,
    {
        let v = raw[i];
        let mut n: usize = 1;
        while n < 255 && i + n < raw.len() && raw[i + n] == v
            invariant
                1 <= n <= 255,
                i + n <= raw.len(),
                v == raw@[i as int],
                forall|k: int| i <= k < i + n ==> raw@[k] == v,
            decreases 255 - n,
        {
            n += 1;
        }
        let ghost before = out@;
        proof {
            lemma_decode_append(out@, n as u8, v);
            assert(raw@.take(i as int) + run(n as nat, v) =~= raw@.take(i + n));
        }
        out.push(n as u8);
        out.push(v);
        proof {
            assert(out@ =~= before + seq![n as u8, v]);
        }
        i += n;
    }
    assert(raw@.take(raw.len() as int) =~= raw@);
    out
}

/// Expands run-length encoded bytes.
pub fn decompress(data: &Vec<u8>) -> (raw: Vec<u8>)
    ensures
        raw@ == rle_decode(data@),
{
    let mut raw: Vec<u8> = Vec::new();
    let mut k: usize = 0;
    while k + 1 < data.len()
        invariant
            k % 2 == 0,
            k <= data.len(),
            raw@ == rle_decode(data@.take(k as int)),
        decreases data.len() - k,
    {
        let n = data[k];
        let v = data[k + 1];
        let ghost before = raw@;
        let mut j: u8 = 0;
        while j < n
            invariant
                j <= n,
                raw@ == before + run(j as nat, v),
            decreases n - j,
        {
            raw.push(v);
            j += 1;
            assert(raw@ =~= before + run(j as nat, v));
        }
        proof {
            lemma_decode_append(data@.take(k as int), n, v);
            assert(data@.take(k as int) + seq![n, v] =~= data@.take(k + 2));
        }
        k += 2;
    }
    proof {
        lemma_decode_trailing(data@, k as int);
    }
    raw
}

proof fn lemma_decode_trailing(d: Seq<u8>, k: int)
    requires
        k % 2 == 0,
        0 <= k <= d.len(),
        k + 1 >= d.len(),
    ensures
        rle_decode(d.take(k)) == rle_decode(d),
    decreases k,
{
    if k == 0 {
        assert(rle_decode(d.take(0)) == Seq::<u8>::empty());
    } else {
        let rest = d.subrange(2, d.len() as int);
        lemma_decode_trailing(rest, k - 2);
        assert(d.take(k).subrange(2, k) =~= rest.take(k - 2));
    }
}

/// A rectangular region's pixel bytes, run-length compressed.
pub struct CompressedCanvasState {
    pub height: u32,
    pub width: u32,
    pub data: Vec<u8>,
}

impl CompressedCanvasState {
    /// The raw bytes this state stands for.
    pub open spec fn contents(&self) -> Seq<u8> {
        rle_decode(self.data@)
    }

    /// Compresses the dumped bytes `buff` of a `height` by `width` region.
    pub fn new(buff: &Vec<u8>, height: u32, width: u32) -> (r: CompressedCanvasState)
        ensures
            r.contents() == buff@,
            r.height == height,
            r.width == width,
    {
        CompressedCanvasState { height, width, data: compress(buff) }
    }

    /// The raw bytes back.
    pub fn decompress(&self) -> (r: Vec<u8>)
        ensures
            r@ == self.contents(),
    {
        decompress(&self.data)
    }

    /// The size of the compressed form in bytes.
    pub fn compressed_len(&self) -> (r: usize)
        ensures
            r == self.data@.len(),
    {
        self.data.len()
    }
}

/// A single-slot store of one region's saved contents.
pub struct SnapshotStore {
    slot: Option<(Rect, CompressedCanvasState)>,
}

impl SnapshotStore {
    pub closed spec fn saved(&self) -> Option<(Rect, Seq<u8>)> {
        match self.slot {
            Some((r, st)) => Some((r, st.contents())),
            None => None,
        }
    }

    pub fn new() -> (r: SnapshotStore)
        ensures
            r.saved() is None,
    {
        SnapshotStore { slot: None }
    }

    /// Dumps `rect` from the surface, compresses it and keeps it, replacing any
    /// earlier snapshot; a failed dump leaves the store as it was.
    pub fn save(&mut self, fb: &Framebuffer, rect: Rect) -> (r: Result<(), RegionError>)
        requires
            fb.wf(),
        ensures
            r is Err <==> !fb.fits(rect),
            r is Err ==> final(self).saved() == old(self).saved(),
            r is Ok ==> (final(self).saved() matches Some((sr, d)) && sr == rect && fb.is_dump_of(rect, d)),
    {
        match fb.dump_region(rect) {
            Err(e) => Err(e),
            Ok(buff) => {
                self.slot = Some((rect, CompressedCanvasState::new(&buff, rect.height, rect.width)));
                Ok(())
            },
        }
    }

    /// Writes the kept snapshot back into the region it came from; without a
    /// snapshot nothing happens. `Ok(true)` when a snapshot was restored.
    pub fn restore(&self, fb: &mut Framebuffer) -> (r: Result<bool, RegionError>)
        requires
            old(fb).wf(),
        ensures
            final(fb).wf(),
            self.saved() is None ==> r == Ok::<bool, RegionError>(false) && *final(fb) == *old(fb),
            self.saved() matches Some((sr, d)) ==> {
                &&& (r is Ok <==> old(fb).fits(sr) && d.len() == sr.height * sr.width * 2)
                &&& (r is Ok ==> r == Ok::<bool, RegionError>(true) && final(fb).is_restore_of(*old(fb), sr, d))
                &&& (r is Err ==> *final(fb) == *old(fb))
            },
    {
        match &self.slot {
            None => Ok(false),
            Some((rect, state)) => {
                let raw = state.decompress();
                match fb.restore_region(*rect, &raw) {
                    Ok(()) => Ok(true),
                    Err(e) => Err(e),
                }
            },
        }
    }
}

/// Saving a region and later restoring the snapshot puts back exactly the
/// bytes the region held when it was saved, whatever was drawn in between;
/// with nothing drawn in between the whole store is as it was.
pub proof fn lemma_save_restore(saved_from: Framebuffer, drawn: Framebuffer, restored: Framebuffer, rect: Rect, d: Seq<u8>)
    requires
        saved_from.wf(),
        saved_from.fits(rect),
        saved_from.is_dump_of(rect, d),
        drawn.spec_line_length() == saved_from.spec_line_length(),
        restored.is_restore_of(drawn, rect, d),
    ensures
        forall|row: int, col: int|
            #![trigger region_offset(restored.spec_line_length(), rect.top as int, rect.left * 2, row, col)]
            0 <= row < rect.height && 0 <= col < rect.width * 2 ==> restored.frame_view()[region_offset(
                restored.spec_line_length(),
                rect.top as int,
                rect.left * 2,
                row,
                col,
            )] == saved_from.frame_view()[region_offset(
                saved_from.spec_line_length(),
                rect.top as int,
                rect.left * 2,
                row,
                col,
            )],
        drawn == saved_from ==> restored.frame_view() == saved_from.frame_view(),
{
    if drawn == saved_from {
        crate::framebuffer::lemma_dump_restore_round_trip(saved_from, restored, rect, d);
    }
}

} // verus!
