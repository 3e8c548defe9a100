//! A run-length packing of frame bytes. It stands in for a codec: no video
//! compression happens here.

use vstd::prelude::*;
use vstd::slice::slice_to_vec;

verus! {

/// The byte that marks a packed run.
pub const RUN_MARKER: u8 = 0xFF;

/// The length of the run of equal bytes at `i`, counted from `count` on and up
/// to 255.
pub open spec fn run_end(data: Seq<u8>, i: int, count: int) -> int
    decreases 255 - count,
{
    if 0 <= count < 255 && 0 <= i && i + count < data.len() && data[i + count] == data[i] {
        run_end(data, i, count + 1)
    } else {
        count
    }
}

/// The length of the run of equal bytes at `i`: at least 1 and at most 255.
pub open spec fn run_length(data: Seq<u8>, i: int) -> int {
    run_end(data, i, 1)
}

/// The bytes of `data` from `i` on, packed: a run of more than three equal
/// bytes becomes the marker, the run's length and the byte; any other byte
/// stands for itself.
pub open spec fn packed_from(data: Seq<u8>, i: int) -> Seq<u8>
    decreases data.len() - i,
{
    if i < 0 || i >= data.len() {
        Seq::empty()
    } else {
        let run = run_length(data, i);
        if 3 < run <= 255 && i + run <= data.len() {
            seq![0xFFu8, run as u8, data[i]] + packed_from(data, i + run)
        } else {
            seq![data[i]] + packed_from(data, i + 1)
        }
    }
}

/// The packed form of `data` where that is shorter, else `data` itself.
pub open spec fn encode_spec(data: Seq<u8>) -> Seq<u8> {
    if packed_from(data, 0).len() < data.len() {
        packed_from(data, 0)
    } else {
        data
    }
}

/// The bytes of `data` from `i` on, unpacked: while three bytes remain, a
/// marker is followed by a count and a byte and gives the byte that many
/// times, and any other byte stands for itself; the last bytes are taken as
/// they are.
pub open spec fn unpacked_from(data: Seq<u8>, i: int) -> Seq<u8>
    decreases data.len() - i,
{
    if i < 0 || i > data.len() {
        Seq::empty()
    } else if i + 2 < data.len() {
        if data[i] == 0xFF {
            Seq::new(data[i + 1] as nat, |k: int| data[i + 2]) + unpacked_from(data, i + 3)
        } else {
            seq![data[i]] + unpacked_from(data, i + 1)
        }
    } else {
        data.subrange(i, data.len() as int)
    }
}

/// `data` unpacked where it opens with the marker, else `data` itself.
pub open spec fn decode_spec(data: Seq<u8>) -> Seq<u8> {
    if data.len() > 0 && data[0] == 0xFF {
        unpacked_from(data, 0)
    } else {
        data
    }
}

/// Packs the bytes of a frame by run length; returns the frame itself where
/// packing would not shorten it. The dimensions play no part.
pub fn encode_yuv_to_ivf_frame(yuv_data: &[u8], _width: i32, _height: i32) -> (out: Vec<u8>)
    ensures
        out@ == encode_spec(yuv_data@),
{
    let len = yuv_data.len();
    let mut packed: Vec<u8> = Vec::new();
    let mut i: usize = 0;
    assert(packed@ + packed_from(yuv_data@, 0) =~= packed_from(yuv_data@, 0));
    while i < len
        invariant
            len == yuv_data@.len(),
            i <= len,
            packed@ + packed_from(yuv_data@, i as int) == packed_from(yuv_data@, 0),
        decreases len - i,
    {
        let current = yuv_data[i];
        let mut count: usize = 1;
        while count < 255 && count < len - i && yuv_data[i + count] == current
            invariant
                len == yuv_data@.len(),
                i < len,
                1 <= count <= 255,
                i + count <= len,
                current == yuv_data@[i as int],
                run_end(yuv_data@, i as int, count as int) == run_length(yuv_data@, i as int),
            decreases 255 - count,
        {
            count += 1;
        }
        let ghost before = packed@;
        let ghost rest = packed_from(yuv_data@, i as int);
        if count > 3 {
            packed.push(RUN_MARKER);
            packed.push(count as u8);
            packed.push(current);
            i += count;
            assert(packed@ + packed_from(yuv_data@, i as int) =~= before + rest);
        } else {
            packed.push(current);
            i += 1;
            assert(packed@ + packed_from(yuv_data@, i as int) =~= before + rest);
        }
    }
    assert(packed@ =~= packed_from(yuv_data@, 0));
    if packed.len() < len {
        packed
    } else {
        slice_to_vec(yuv_data)
    }
}

/// Unpacks a frame that opens with the run marker; returns any other frame as
/// it is. The dimensions play no part.
pub fn decode_ivf_frame_to_yuv(frame_data: &[u8], _width: i32, _height: i32) -> (out: Vec<u8>)
    ensures
        out@ == decode_spec(frame_data@),
{
    let len = frame_data.len();
    if len == 0 || frame_data[0] != RUN_MARKER {
        return slice_to_vec(frame_data);
    }
    let mut out: Vec<u8> = Vec::new();
    let mut i: usize = 0;
    assert(out@ + unpacked_from(frame_data@, 0) =~= unpacked_from(frame_data@, 0));
    while len - i > 2
        invariant
            len == frame_data@.len(),
            i <= len,
            out@ + unpacked_from(frame_data@, i as int) == unpacked_from(frame_data@, 0),
        decreases len - i,
    {
        let ghost before = out@;
        let ghost rest = unpacked_from(frame_data@, i as int);
        if frame_data[i] == RUN_MARKER {
            let count = frame_data[i + 1];
            let value = frame_data[i + 2];
            let mut k: u8 = 0;
            while k < count
                invariant
                    k <= count,
                    out@ == before + Seq::new(k as nat, |j: int| value),
                decreases count - k,
            {
                out.push(value);
                k += 1;
                assert(out@ =~= before + Seq::new(k as nat, |j: int| value));
            }
            proof {
                let run = Seq::new(frame_data@[i + 1] as nat, |j: int| frame_data@[i + 2]);
                assert(run =~= Seq::new(count as nat, |j: int| value));
                assert(before + run + unpacked_from(frame_data@, i + 3) =~= before + rest);
            }
            i += 3;
        } else {
            out.push(frame_data[i]);
            i += 1;
            assert(out@ + unpacked_from(frame_data@, i as int) =~= before + rest);
        }
    }
    let ghost before = out@;
    while i < len
        invariant
            len == frame_data@.len(),
            i <= len,
            len - i <= 2 || i == len,
            out@ + frame_data@.subrange(i as int, len as int) == unpacked_from(frame_data@, 0),
        decreases len - i,
    {
        let ghost prior = out@;
        let ghost tail = frame_data@.subrange(i as int, len as int);
        out.push(frame_data[i]);
        i += 1;
        assert(out@ + frame_data@.subrange(i as int, len as int) =~= prior + tail);
    }
    assert(out@ =~= unpacked_from(frame_data@, 0));
    out
}

} // verus!
