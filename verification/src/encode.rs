//! The binary encoder: a frame sequence as the bytes of a PNG or an animated PNG.

use vstd::prelude::*;
use vstd::string::StringSliceAdditionalSpecFns;
use vstd::utf8::encode_utf8;
use crate::chunk::{
    append_chunk, be16, be32, chunk_bytes, chunk_fits, compress, extend, push_be16, push_be32,
    zlib_best,
};
use crate::config::{frames_view, Config, Frames, Pixel};
use crate::error::{CompileError, Violation};
use crate::scanline::{build_raw_image, raw_image};
use crate::validate::{shape_violation, validate};

verus! {

/// The eight bytes that open every PNG stream.
pub open spec fn signature() -> Seq<u8> {
    seq![0x89u8, 0x50u8, 0x4eu8, 0x47u8, 0x0du8, 0x0au8, 0x1au8, 0x0au8]
}

/// The chunk type `IHDR`.
pub open spec fn tag_ihdr() -> Seq<u8> {
    seq![0x49u8, 0x48u8, 0x44u8, 0x52u8]
}

/// The chunk type `iTXt`.
pub open spec fn tag_itxt() -> Seq<u8> {
    seq![0x69u8, 0x54u8, 0x58u8, 0x74u8]
}

/// The chunk type `acTL`.
pub open spec fn tag_actl() -> Seq<u8> {
    seq![0x61u8, 0x63u8, 0x54u8, 0x4cu8]
}

/// The chunk type `fcTL`.
pub open spec fn tag_fctl() -> Seq<u8> {
    seq![0x66u8, 0x63u8, 0x54u8, 0x4cu8]
}

/// The chunk type `IDAT`.
pub open spec fn tag_idat() -> Seq<u8> {
    seq![0x49u8, 0x44u8, 0x41u8, 0x54u8]
}

/// The chunk type `fdAT`.
pub open spec fn tag_fdat() -> Seq<u8> {
    seq![0x66u8, 0x64u8, 0x41u8, 0x54u8]
}

/// The chunk type `IEND`, which has no payload.
pub open spec fn tag_iend() -> Seq<u8> {
    seq![0x49u8, 0x45u8, 0x4eu8, 0x44u8]
}

/// The `tEXt` chunk that names the generator: the keyword `Generator`, a zero byte, and the
/// text `Pixdown`.
pub open spec fn text_data() -> Seq<u8> {
    seq![
        0x74u8, 0x45u8, 0x58u8, 0x74u8, 0x47u8, 0x65u8, 0x6eu8, 0x65u8, 0x72u8, 0x61u8, 0x74u8,
        0x6fu8, 0x72u8, 0x00u8, 0x50u8, 0x69u8, 0x78u8, 0x64u8, 0x6fu8, 0x77u8, 0x6eu8,
    ]
}

/// Width of the encoded image: the canvas width times the scale.
pub open spec fn out_width(conf: Config) -> int {
    conf.size.w * conf.size.scale
}

/// Height of the encoded image: the canvas height times the scale.
pub open spec fn out_height(conf: Config) -> int {
    conf.size.h * conf.size.scale
}

/// `IHDR`: width, height, bit depth 8, color type 6 (truecolor with alpha), and zero for
/// compression, filter and interlace.
pub open spec fn ihdr_data(conf: Config) -> Seq<u8> {
    tag_ihdr() + be32(out_width(conf) as u32) + be32(out_height(conf) as u32)
        + seq![0x08u8, 0x06u8, 0x00u8, 0x00u8, 0x00u8]
}

/// `iTXt`: the key, a zero byte, compression flag 1, compression method 0, two zero bytes
/// that end the empty language tag and the empty second keyword, and the compressed value.
pub open spec fn itxt_data(key: Seq<char>, value: Seq<char>) -> Seq<u8> {
    tag_itxt() + encode_utf8(key) + seq![0x00u8, 0x01u8, 0x00u8, 0x00u8, 0x00u8] + zlib_best(
        encode_utf8(value),
    )
}

/// The metadata entries of a configuration, none where it has no table of them.
pub open spec fn meta_entries(conf: Config) -> Seq<(String, String)> {
    match conf.meta {
        Some(entries) => entries@,
        None => Seq::empty(),
    }
}

/// One `iTXt` chunk per entry, in order.
pub open spec fn itxt_chunks(entries: Seq<(String, String)>) -> Seq<u8>
    decreases entries.len(),
{
    if entries.len() == 0 {
        Seq::empty()
    } else {
        itxt_chunks(entries.drop_last()) + chunk_bytes(
            itxt_data(entries.last().0@, entries.last().1@),
        )
    }
}

/// `acTL`: the number of frames, and 0 plays for an endless loop.
pub open spec fn actl_data(frames: u32) -> Seq<u8> {
    tag_actl() + be32(frames) + be32(0)
}

/// The delay of every frame as numerator and denominator: 1/24 where none is configured,
/// and 24 in place of a zero denominator.
pub open spec fn delay(conf: Config) -> (u16, u16) {
    match conf.size.rate {
        Some(rate) => (rate[0], if rate[1] == 0 { 24u16 } else { rate[1] }),
        None => (1u16, 24u16),
    }
}

/// The sequence number of the `fcTL` chunk of frame `i`. The counter runs over `fcTL` and
/// `fdAT` chunks together; the first frame's image data is an `IDAT` and takes no number.
pub open spec fn fctl_sequence(i: int) -> int {
    if i == 0 {
        0
    } else {
        2 * i - 1
    }
}

/// The sequence number of the `fdAT` chunk of frame `i`, for `i` above 0.
pub open spec fn fdat_sequence(i: int) -> int {
    2 * i
}

/// `fcTL`: sequence number, width, height, offsets 0, the delay, dispose operation 0 and
/// blend operation 1.
pub open spec fn fctl_data(i: int, conf: Config) -> Seq<u8> {
    tag_fctl() + be32(fctl_sequence(i) as u32) + be32(out_width(conf) as u32) + be32(
        out_height(conf) as u32,
    ) + be32(0) + be32(0) + be16(delay(conf).0) + be16(delay(conf).1) + seq![0x00u8, 0x01u8]
}

/// The image data chunk of frame `i`: `IDAT` for the first frame, `fdAT` with its sequence
/// number for the others, then the compressed raw image.
pub open spec fn image_data(i: int, grid: Seq<Seq<Pixel>>, scale: nat) -> Seq<u8> {
    if i == 0 {
        tag_idat() + zlib_best(raw_image(grid, scale))
    } else {
        tag_fdat() + be32(fdat_sequence(i) as u32) + zlib_best(raw_image(grid, scale))
    }
}

/// The chunks of frame `i`: its `fcTL` where the image is animated, then its image data.
pub open spec fn frame_chunks(i: int, grid: Seq<Seq<Pixel>>, conf: Config) -> Seq<u8> {
    let control = if conf.size.frames > 1 {
        chunk_bytes(fctl_data(i, conf))
    } else {
        Seq::empty()
    };
    control + chunk_bytes(image_data(i, grid, conf.size.scale as nat))
}

/// The chunks of all frames, in order.
pub open spec fn all_frame_chunks(frames: Seq<Seq<Seq<Pixel>>>, conf: Config) -> Seq<u8>
    decreases frames.len(),
{
    if frames.len() == 0 {
        Seq::empty()
    } else {
        all_frame_chunks(frames.drop_last(), conf) + frame_chunks(
            frames.len() - 1,
            frames.last(),
            conf,
        )
    }
}

/// What stands before the frames: signature, `IHDR`, the generator's `tEXt`, the metadata,
/// and `acTL` where there is more than one frame.
pub open spec fn preamble(conf: Config) -> Seq<u8> {
    let animation = if conf.size.frames > 1 {
        chunk_bytes(actl_data(conf.size.frames as u32))
    } else {
        Seq::empty()
    };
    signature() + chunk_bytes(ihdr_data(conf)) + chunk_bytes(text_data()) + itxt_chunks(
        meta_entries(conf),
    ) + animation
}

/// The whole stream for a valid frame sequence.
pub open spec fn png_bytes(frames: Seq<Seq<Seq<Pixel>>>, conf: Config) -> Seq<u8> {
    preamble(conf) + all_frame_chunks(frames, conf) + chunk_bytes(tag_iend())
}

/// Whether something does not fit the 32-bit fields of the format: the width or height of
/// the output, the last sequence number, or the payload of a metadata or image data chunk.
pub open spec fn oversize(frames: Seq<Seq<Seq<Pixel>>>, conf: Config) -> bool {
    ||| out_width(conf) > u32::MAX
    ||| out_height(conf) > u32::MAX
    ||| fdat_sequence(frames.len() - 1) > u32::MAX
    ||| exists|k: int|
        0 <= k < meta_entries(conf).len() && !chunk_fits(
            #[trigger] itxt_data(meta_entries(conf)[k].0@, meta_entries(conf)[k].1@),
        )
    ||| exists|i: int|
        0 <= i < frames.len() && !chunk_fits(
            #[trigger] image_data(i, frames[i], conf.size.scale as nat),
        )
}

/// The invariant that keeps the frames from being encoded, if there is one: the first that
/// their shape breaks, else a size beyond the format's fields.
pub open spec fn violation(frames: Seq<Seq<Seq<Pixel>>>, conf: Config) -> Option<Violation> {
    match shape_violation(frames, conf.size.frames as nat) {
        Some(v) => Some(v),
        None => if oversize(frames, conf) {
            Some(Violation::Oversize)
        } else {
            None
        },
    }
}

/// Appends the `iTXt` chunk of every metadata entry. Stops with `false` at the first entry
/// whose chunk would be too long.
fn append_meta(out: &mut Vec<u8>, conf: &Config) -> (done: bool)
    ensures
        done == (forall|k: int|
            0 <= k < meta_entries(*conf).len() ==> chunk_fits(
                #[trigger] itxt_data(meta_entries(*conf)[k].0@, meta_entries(*conf)[k].1@),
            )),
        done ==> final(out)@ == old(out)@ + itxt_chunks(meta_entries(*conf)),
{
    let ghost entries = meta_entries(*conf);
    assert(entries.subrange(0, 0) =~= Seq::<(String, String)>::empty());
    match &conf.meta {
        Some(list) => {
            let mut i: usize = 0;
            assert(out@ =~= old(out)@ + itxt_chunks(entries.subrange(0, 0)));
            while i < list.len()
                invariant
                    i <= list@.len(),
                    entries == list@,
                    entries == meta_entries(*conf),
                    forall|k: int|
                        0 <= k < i ==> chunk_fits(
                            #[trigger] itxt_data(entries[k].0@, entries[k].1@),
                        ),
                    out@ == old(out)@ + itxt_chunks(entries.subrange(0, i as int)),
                decreases list@.len() - i,
            {
                let key = list[i].0.as_str();
                let value = list[i].1.as_str();
                let mut data: Vec<u8> = vec![0x69u8, 0x54u8, 0x58u8, 0x74u8];
                extend(&mut data, key.as_bytes());
                data.push(0x00u8);
                data.push(0x01u8);
                data.push(0x00u8);
                data.push(0x00u8);
                data.push(0x00u8);
                let packed = compress(value.as_bytes());
                extend(&mut data, packed.as_slice());
                assert(data@ =~= itxt_data(entries[i as int].0@, entries[i as int].1@));
                let ghost before = out@;
                if !append_chunk(out, data.as_slice()) {
                    return false;
                }
                proof {
                    let more = entries.subrange(0, i + 1);
                    assert(more.drop_last() =~= entries.subrange(0, i as int));
                    assert(more.last() == entries[i as int]);
                    assert(out@ =~= old(out)@ + itxt_chunks(more));
                }
                i += 1;
            }
            assert(entries.subrange(0, i as int) =~= entries);
            true
        },
        None => {
            assert(out@ =~= old(out)@ + itxt_chunks(entries));
            true
        },
    }
}

/// Appends the chunks of frame `i`. Gives `false`, and an unspecified `out`, where the image
/// data chunk would be too long.
fn append_frame(out: &mut Vec<u8>, i: usize, grid: &Vec<Vec<Pixel>>, conf: &Config) -> (done: bool)
    requires
        out_width(*conf) <= u32::MAX,
        out_height(*conf) <= u32::MAX,
        fdat_sequence(i as int) <= u32::MAX,
    ensures
        done == chunk_fits(
            image_data(i as int, crate::config::grid_view(*grid), conf.size.scale as nat),
        ),
        done ==> final(out)@ == old(out)@ + frame_chunks(
            i as int,
            crate::config::grid_view(*grid),
            *conf,
        ),
{
    let ghost rows = crate::config::grid_view(*grid);
    if conf.size.frames > 1 {
        let sequence: u32 = if i == 0 {
            0
        } else {
            (2 * i - 1) as u32
        };
        let (numerator, denominator) = delay_of(conf);
        let mut control: Vec<u8> = vec![0x66u8, 0x63u8, 0x54u8, 0x4cu8];
        push_be32(&mut control, sequence);
        push_be32(&mut control, (conf.size.w * conf.size.scale) as u32);
        push_be32(&mut control, (conf.size.h * conf.size.scale) as u32);
        push_be32(&mut control, 0);
        push_be32(&mut control, 0);
        push_be16(&mut control, numerator);
        push_be16(&mut control, denominator);
        control.push(0x00u8);
        control.push(0x01u8);
        assert(control@ =~= fctl_data(i as int, *conf));
        let framed = append_chunk(out, control.as_slice());
        assert(framed);
    }
    let ghost middle = out@;
    let mut data: Vec<u8> = if i == 0 {
        vec![0x49u8, 0x44u8, 0x41u8, 0x54u8]
    } else {
        let mut tagged: Vec<u8> = vec![0x66u8, 0x64u8, 0x41u8, 0x54u8];
        push_be32(&mut tagged, (2 * i) as u32);
        tagged
    };
    let raw = build_raw_image(grid, conf.size.scale);
    let packed = compress(raw.as_slice());
    extend(&mut data, packed.as_slice());
    assert(data@ =~= image_data(i as int, rows, conf.size.scale as nat));
    let done = append_chunk(out, data.as_slice());
    assert(done ==> out@ =~= old(out)@ + frame_chunks(i as int, rows, *conf));
    done
}

/// The delay of every frame, as [`delay`] states it.
pub fn delay_of(conf: &Config) -> (d: (u16, u16))
    ensures
        d == delay(*conf),
{
    match conf.size.rate {
        Some(rate) => (
            rate[0],
            if rate[1] == 0 {
                24
            } else {
                rate[1]
            },
        ),
        None => (1, 24),
    }
}

/// Whether `a * b` fits 32 bits.
fn product_fits(a: usize, b: usize) -> (ok: bool)
    ensures
        ok == (a * b <= u32::MAX),
{
    if a == 0 || b == 0 {
        assert(a * b == 0) by (nonlinear_arith)
            requires
                a == 0 || b == 0,
        ;
        true
    } else if a > u32::MAX as usize || b > u32::MAX as usize {
        assert(a * b > u32::MAX) by (nonlinear_arith)
            requires
                a >= 1,
                b >= 1,
                a > u32::MAX || b > u32::MAX,
        ;
        false
    } else {
        assert(a * b <= 0xffff_ffff * 0xffff_ffff) by (nonlinear_arith)
            requires
                a <= 0xffff_ffff,
                b <= 0xffff_ffff,
        ;
        (a as u64) * (b as u64) <= u32::MAX as u64
    }
}

/// Builds what stands before the frames, or nothing where a metadata chunk would be too
/// long.
fn build_preamble(conf: &Config) -> (built: Option<Vec<u8>>)
    requires
        out_width(*conf) <= u32::MAX,
        out_height(*conf) <= u32::MAX,
    ensures
        built is Some == (forall|k: int|
            0 <= k < meta_entries(*conf).len() ==> chunk_fits(
                #[trigger] itxt_data(meta_entries(*conf)[k].0@, meta_entries(*conf)[k].1@),
            )),
        built matches Some(out) ==> out@ == preamble(*conf),
{
    let mut out: Vec<u8> = vec![0x89u8, 0x50u8, 0x4eu8, 0x47u8, 0x0du8, 0x0au8, 0x1au8, 0x0au8];
    assert(out@ =~= signature());
    let mut header: Vec<u8> = vec![0x49u8, 0x48u8, 0x44u8, 0x52u8];
    push_be32(&mut header, (conf.size.w * conf.size.scale) as u32);
    push_be32(&mut header, (conf.size.h * conf.size.scale) as u32);
    header.push(0x08u8);
    header.push(0x06u8);
    header.push(0x00u8);
    header.push(0x00u8);
    header.push(0x00u8);
    assert(header@ =~= ihdr_data(*conf));
    let framed = append_chunk(&mut out, header.as_slice());
    assert(framed);
    let text: Vec<u8> = vec![
        0x74u8, 0x45u8, 0x58u8, 0x74u8, 0x47u8, 0x65u8, 0x6eu8, 0x65u8, 0x72u8, 0x61u8, 0x74u8,
        0x6fu8, 0x72u8, 0x00u8, 0x50u8, 0x69u8, 0x78u8, 0x64u8, 0x6fu8, 0x77u8, 0x6eu8,
    ];
    assert(text@ =~= text_data());
    let framed = append_chunk(&mut out, text.as_slice());
    assert(framed);
    if !append_meta(&mut out, conf) {
        return None;
    }
    if conf.size.frames > 1 {
        let mut animation: Vec<u8> = vec![0x61u8, 0x63u8, 0x54u8, 0x4cu8];
        push_be32(&mut animation, conf.size.frames as u32);
        push_be32(&mut animation, 0);
        assert(animation@ =~= actl_data(conf.size.frames as u32));
        let framed = append_chunk(&mut out, animation.as_slice());
        assert(framed);
    }
    assert(out@ =~= preamble(*conf));
    Some(out)
}

/// Appends the chunks of every frame. Gives `false`, and an unspecified `out`, where an
/// image data chunk would be too long.
fn append_frames(out: &mut Vec<u8>, frames: &Frames, conf: &Config) -> (done: bool)
    requires
        out_width(*conf) <= u32::MAX,
        out_height(*conf) <= u32::MAX,
        fdat_sequence(frames@.len() - 1) <= u32::MAX,
    ensures
        done == (forall|k: int|
            0 <= k < frames@.len() ==> chunk_fits(
                #[trigger] image_data(k, frames_view(*frames)[k], conf.size.scale as nat),
            )),
        done ==> final(out)@ == old(out)@ + all_frame_chunks(frames_view(*frames), *conf),
{
    let ghost view = frames_view(*frames);
    assert(view.subrange(0, 0) =~= Seq::<Seq<Seq<Pixel>>>::empty());
    assert(out@ =~= old(out)@ + all_frame_chunks(view.subrange(0, 0), *conf));
    let mut i: usize = 0;
    while i < frames.len()
        invariant
            i <= frames@.len(),
            view == frames_view(*frames),
            out_width(*conf) <= u32::MAX,
            out_height(*conf) <= u32::MAX,
            fdat_sequence(frames@.len() - 1) <= u32::MAX,
            forall|k: int|
                0 <= k < i ==> chunk_fits(
                    #[trigger] image_data(k, view[k], conf.size.scale as nat),
                ),
            out@ == old(out)@ + all_frame_chunks(view.subrange(0, i as int), *conf),
        decreases frames@.len() - i,
    {
        let ghost before = out@;
        if !append_frame(out, i, &frames[i], conf) {
            assert(!chunk_fits(image_data(i as int, view[i as int], conf.size.scale as nat)));
            return false;
        }
        proof {
            let more = view.subrange(0, i + 1);
            assert(more.drop_last() =~= view.subrange(0, i as int));
            assert(more.last() == view[i as int]);
            assert(all_frame_chunks(more, *conf) == all_frame_chunks(more.drop_last(), *conf)
                + frame_chunks(i as int, view[i as int], *conf));
            assert(out@ == before + frame_chunks(i as int, view[i as int], *conf));
            assert(out@ =~= old(out)@ + all_frame_chunks(more, *conf));
        }
        i += 1;
    }
    assert(view.subrange(0, i as int) =~= view);
    true
}

/// Encodes a frame sequence. The frames must first pass validation: there is at least one,
/// their number is the configured one, and all share one positive height and one positive
/// width; and every field must fit the format. Otherwise the result is the violation and no
/// bytes at all. A single frame gives a plain PNG, more give an animated one.
pub fn generate_image(frames: &Frames, conf: &Config) -> (out: Result<Vec<u8>, CompileError>)
    ensures
        match out {
            Ok(bytes) => violation(frames_view(*frames), *conf) is None && bytes@ == png_bytes(
                frames_view(*frames),
                *conf,
            ),
            Err(e) => violation(frames_view(*frames), *conf) matches Some(v) && e
                == CompileError::Validation(v),
        },
{
    match validate(frames, conf.size.frames) {
        Some(v) => {
            return Err(CompileError::Validation(v));
        },
        None => {},
    }
    if !product_fits(conf.size.w, conf.size.scale) || !product_fits(conf.size.h, conf.size.scale)
        || frames.len() - 1 > (u32::MAX / 2) as usize {
        return Err(CompileError::Validation(Violation::Oversize));
    }
    let mut out = match build_preamble(conf) {
        Some(out) => out,
        None => {
            return Err(CompileError::Validation(Violation::Oversize));
        },
    };
    if !append_frames(&mut out, frames, conf) {
        return Err(CompileError::Validation(Violation::Oversize));
    }
    let end: Vec<u8> = vec![0x49u8, 0x45u8, 0x4eu8, 0x44u8];
    assert(end@ =~= tag_iend());
    let framed = append_chunk(&mut out, end.as_slice());
    assert(framed);
    Ok(out)
}

} // verus!
