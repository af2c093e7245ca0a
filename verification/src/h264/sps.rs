//! Parsing of the picture dimensions out of a sequence parameter set
//! (H.264 §7.3.2.1.1).
//!
//! The `*_spec` functions follow the syntax of the SPS field by field over
//! an unbounded bit position; each returns `None` where the data runs out or
//! an Exp-Golomb code is malformed.
use super::bits::{
    extends, lemma_bit_at_le_1, lemma_read_bit_extends, lemma_se_extends, lemma_skip_extends,
    lemma_ue_bounds, lemma_ue_extends, read_bit_spec, se_spec, skip_spec, ue_spec, BitReader,
};
use super::{remove_emulation_prevention_bytes, unescape};
use vstd::prelude::*;
use vstd::slice::slice_subrange;

verus! {

/// `profile_idc` values whose SPS carries chroma format, bit depth and
/// scaling matrix fields.
pub open spec fn is_high_profile(profile_idc: u8) -> bool {
    profile_idc == 100 || profile_idc == 110 || profile_idc == 122 || profile_idc == 244
        || profile_idc == 44 || profile_idc == 83 || profile_idc == 86 || profile_idc == 118
        || profile_idc == 128
}

/// Remainder of `a` divided by 256 with the sign of `a`, as Rust's `%`
/// computes it on signed integers.
pub open spec fn trunc_rem_256(a: int) -> int {
    if a >= 0 {
        a % 256
    } else {
        -((-a) % 256)
    }
}

/// Position after a `scaling_list` of `size` entries, from entry `j` on,
/// with the running `lastScale` and `nextScale`.
pub open spec fn scaling_list_end(
    d: Seq<u8>,
    p: int,
    j: int,
    size: int,
    last: int,
    next: int,
) -> Option<int>
    decreases size - j,
{
    if j >= size {
        Some(p)
    } else if next != 0 {
        match se_spec(d, p) {
            None => None,
            Some((delta, q)) => {
                let n = trunc_rem_256(last + delta + 256);
                scaling_list_end(d, q, j + 1, size, if n == 0 { last } else { n }, n)
            },
        }
    } else {
        scaling_list_end(d, p, j + 1, size, last, next)
    }
}

/// Position after the scaling list flags and lists of a
/// `seq_scaling_matrix`, from list `i` of `count` on.
pub open spec fn scaling_matrix_end(d: Seq<u8>, p: int, i: int, count: int) -> Option<int>
    decreases count - i,
{
    if i >= count {
        Some(p)
    } else {
        match read_bit_spec(d, p) {
            None => None,
            Some((flag, q)) => if flag == 1 {
                match scaling_list_end(d, q, 0, if i < 6 { 16 } else { 64 }, 8, 8) {
                    None => None,
                    Some(r) => scaling_matrix_end(d, r, i + 1, count),
                }
            } else {
                scaling_matrix_end(d, q, i + 1, count)
            },
        }
    }
}

/// Position after the fields that high profiles add: `chroma_format_idc`,
/// `separate_colour_plane_flag`, the bit depths, the transform bypass flag
/// and the optional scaling matrix.
pub open spec fn high_profile_fields_end(d: Seq<u8>, p: int) -> Option<int> {
    match ue_spec(d, p) {
        None => None,
        Some((chroma, p1)) => match skip_spec(d, p1, if chroma == 3 { 1 } else { 0 }) {
            None => None,
            Some(p2) => match ue_spec(d, p2) {
                None => None,
                Some((_, p3)) => match ue_spec(d, p3) {
                    None => None,
                    Some((_, p4)) => match skip_spec(d, p4, 1) {
                        None => None,
                        Some(p5) => match read_bit_spec(d, p5) {
                            None => None,
                            Some((flag, p6)) => if flag == 1 {
                                scaling_matrix_end(d, p6, 0, if chroma != 3 { 8 } else { 12 })
                            } else {
                                Some(p6)
                            },
                        },
                    },
                },
            },
        },
    }
}

/// Position after `n` `se(v)` codes.
pub open spec fn se_run_end(d: Seq<u8>, p: int, n: nat) -> Option<int>
    decreases n,
{
    if n == 0 {
        Some(p)
    } else {
        match se_spec(d, p) {
            None => None,
            Some((_, q)) => se_run_end(d, q, (n - 1) as nat),
        }
    }
}

/// Position after `pic_order_cnt_type` and the fields it selects.
pub open spec fn pic_order_cnt_end(d: Seq<u8>, p: int) -> Option<int> {
    match ue_spec(d, p) {
        None => None,
        Some((kind, p1)) => if kind == 0 {
            match ue_spec(d, p1) {
                None => None,
                Some((_, p2)) => Some(p2),
            }
        } else if kind == 1 {
            match skip_spec(d, p1, 1) {
                None => None,
                Some(p2) => match se_spec(d, p2) {
                    None => None,
                    Some((_, p3)) => match se_spec(d, p3) {
                        None => None,
                        Some((_, p4)) => match ue_spec(d, p4) {
                            None => None,
                            Some((cycle, p5)) => se_run_end(d, p5, cycle),
                        },
                    },
                },
            }
        } else {
            Some(p1)
        },
    }
}

/// Position after `profile_idc`, the constraint flags, `level_idc` and
/// `seq_parameter_set_id`, which open every SPS.
pub open spec fn header_end(d: Seq<u8>) -> Option<int> {
    match skip_spec(d, 0, 24) {
        None => None,
        Some(p) => match ue_spec(d, p) {
            None => None,
            Some((_, q)) => Some(q),
        },
    }
}

/// Position of `log2_max_frame_num_minus4` in the RBSP `d` of an SPS whose
/// `profile_idc` is `profile_idc`.
pub open spec fn frame_fields_start(d: Seq<u8>, profile_idc: u8) -> Option<int> {
    match header_end(d) {
        None => None,
        Some(q) => if is_high_profile(profile_idc) {
            high_profile_fields_end(d, q)
        } else {
            Some(q)
        },
    }
}

/// Position of `pic_width_in_mbs_minus1`, from that of
/// `log2_max_frame_num_minus4`.
pub open spec fn dims_start(d: Seq<u8>, p: int) -> Option<int> {
    match ue_spec(d, p) {
        None => None,
        Some((_, p1)) => match pic_order_cnt_end(d, p1) {
            None => None,
            Some(p2) => match ue_spec(d, p2) {
                None => None,
                Some((_, p3)) => skip_spec(d, p3, 1),
            },
        },
    }
}

/// The four `frame_crop_*_offset` values (left, right, top, bottom).
pub open spec fn crop_offsets(d: Seq<u8>, p: int) -> Option<(nat, nat, nat, nat)> {
    match ue_spec(d, p) {
        None => None,
        Some((l, p1)) => match ue_spec(d, p1) {
            None => None,
            Some((r, p2)) => match ue_spec(d, p2) {
                None => None,
                Some((t, p3)) => match ue_spec(d, p3) {
                    None => None,
                    Some((b, _)) => Some((l, r, t, b)),
                },
            },
        },
    }
}

/// `a - b`, or 0 when `b` exceeds `a`.
pub open spec fn sat_sub(a: int, b: int) -> int {
    if a >= b {
        a - b
    } else {
        0
    }
}

/// The dimensions, when both fit in a `u32`.
pub open spec fn fit_dims(w: int, h: int) -> Option<(u32, u32)> {
    if 0 <= w <= u32::MAX && 0 <= h <= u32::MAX {
        Some((w as u32, h as u32))
    } else {
        None
    }
}

/// Display size from the coded frame size fields: 16 luma samples per
/// macroblock, the height doubled for field coding, minus the cropping
/// window (left, right, top, bottom), whose unit is two samples for 4:2:0
/// and twice that vertically for field coding.
pub open spec fn dims_from_fields(
    wm1: nat,
    hm1: nat,
    frame_mbs_only: u8,
    crop: Option<(nat, nat, nat, nat)>,
) -> Option<(u32, u32)> {
    let w: int = ((wm1 + 1) * 16) as int;
    let h: int = (hm1 + 1) * 16 * (2 - frame_mbs_only);
    match crop {
        None => fit_dims(w, h),
        Some((l, r, t, b)) => fit_dims(
            sat_sub(w, 2 * (l + r) as int),
            sat_sub(h, (2 - frame_mbs_only) * 2 * (t + b) as int),
        ),
    }
}

/// Display size from the fields that start at `pic_width_in_mbs_minus1`:
/// the coded size, `frame_mbs_only_flag`, the optional
/// `mb_adaptive_frame_field_flag`, `direct_8x8_inference_flag`, then
/// `frame_cropping_flag` and the crop offsets.
pub open spec fn dims_spec(d: Seq<u8>, p: int) -> Option<(u32, u32)> {
    match ue_spec(d, p) {
        None => None,
        Some((wm1, p1)) => match ue_spec(d, p1) {
            None => None,
            Some((hm1, p2)) => match read_bit_spec(d, p2) {
                None => None,
                Some((frame_mbs_only, p3)) => match skip_spec(
                    d,
                    p3,
                    if frame_mbs_only == 0 { 2 } else { 1 },
                ) {
                    None => None,
                    Some(p4) => match read_bit_spec(d, p4) {
                        None => None,
                        Some((cropping, p5)) => if cropping == 1 {
                            match crop_offsets(d, p5) {
                                None => None,
                                Some(c) => dims_from_fields(wm1, hm1, frame_mbs_only, Some(c)),
                            }
                        } else {
                            dims_from_fields(wm1, hm1, frame_mbs_only, None)
                        },
                    },
                },
            },
        },
    }
}

/// Display resolution encoded in the SPS NAL unit `sps` (header byte
/// included), or `None` when it cannot be parsed.
#[verifier::opaque]
pub open spec fn sps_resolution(sps: Seq<u8>) -> Option<(u32, u32)> {
    if sps.len() == 0 {
        None
    } else {
        let d = unescape(sps.skip(1));
        match frame_fields_start(d, sps[1]) {
            None => None,
            Some(p) => match dims_start(d, p) {
                None => None,
                Some(q) => dims_spec(d, q),
            },
        }
    }
}

proof fn lemma_scaling_list_extends(
    d: Seq<u8>,
    d2: Seq<u8>,
    p: int,
    j: int,
    size: int,
    last: int,
    next: int,
)
    requires
        extends(d2, d),
        scaling_list_end(d, p, j, size, last, next) is Some,
    ensures
        scaling_list_end(d2, p, j, size, last, next) == scaling_list_end(d, p, j, size, last, next),
    decreases size - j,
{
    if j < size {
        if next != 0 {
            if let Some((delta, q)) = se_spec(d, p) {
                lemma_se_extends(d, d2, p);
                let n = trunc_rem_256(last + delta + 256);
                lemma_scaling_list_extends(d, d2, q, j + 1, size, if n == 0 { last } else { n }, n);
            }
        } else {
            lemma_scaling_list_extends(d, d2, p, j + 1, size, last, next);
        }
    }
}

proof fn lemma_scaling_matrix_extends(d: Seq<u8>, d2: Seq<u8>, p: int, i: int, count: int)
    requires
        extends(d2, d),
        scaling_matrix_end(d, p, i, count) is Some,
    ensures
        scaling_matrix_end(d2, p, i, count) == scaling_matrix_end(d, p, i, count),
    decreases count - i,
{
    if i < count {
        if let Some((flag, q)) = read_bit_spec(d, p) {
            lemma_read_bit_extends(d, d2, p);
            if flag == 1 {
                let size = if i < 6 { 16int } else { 64int };
                if let Some(r) = scaling_list_end(d, q, 0, size, 8, 8) {
                    lemma_scaling_list_extends(d, d2, q, 0, size, 8, 8);
                    lemma_scaling_matrix_extends(d, d2, r, i + 1, count);
                }
            } else {
                lemma_scaling_matrix_extends(d, d2, q, i + 1, count);
            }
        }
    }
}

proof fn lemma_high_profile_fields_extends(d: Seq<u8>, d2: Seq<u8>, p: int)
    requires
        extends(d2, d),
        high_profile_fields_end(d, p) is Some,
    ensures
        high_profile_fields_end(d2, p) == high_profile_fields_end(d, p),
{
    if let Some((chroma, p1)) = ue_spec(d, p) {
        lemma_ue_extends(d, d2, p);
        let n = if chroma == 3 { 1int } else { 0int };
        if let Some(p2) = skip_spec(d, p1, n) {
            lemma_skip_extends(d, d2, p1, n);
            if let Some((_, p3)) = ue_spec(d, p2) {
                lemma_ue_extends(d, d2, p2);
                if let Some((_, p4)) = ue_spec(d, p3) {
                    lemma_ue_extends(d, d2, p3);
                    if let Some(p5) = skip_spec(d, p4, 1) {
                        lemma_skip_extends(d, d2, p4, 1);
                        if let Some((flag, p6)) = read_bit_spec(d, p5) {
                            lemma_read_bit_extends(d, d2, p5);
                            if flag == 1 {
                                lemma_scaling_matrix_extends(
                                    d,
                                    d2,
                                    p6,
                                    0,
                                    if chroma != 3 { 8 } else { 12 },
                                );
                            }
                        }
                    }
                }
            }
        }
    }
}

proof fn lemma_se_run_extends(d: Seq<u8>, d2: Seq<u8>, p: int, n: nat)
    requires
        extends(d2, d),
        se_run_end(d, p, n) is Some,
    ensures
        se_run_end(d2, p, n) == se_run_end(d, p, n),
    decreases n,
{
    if n > 0 {
        if let Some((_, q)) = se_spec(d, p) {
            lemma_se_extends(d, d2, p);
            lemma_se_run_extends(d, d2, q, (n - 1) as nat);
        }
    }
}

proof fn lemma_pic_order_cnt_extends(d: Seq<u8>, d2: Seq<u8>, p: int)
    requires
        extends(d2, d),
        pic_order_cnt_end(d, p) is Some,
    ensures
        pic_order_cnt_end(d2, p) == pic_order_cnt_end(d, p),
{
    if let Some((kind, p1)) = ue_spec(d, p) {
        lemma_ue_extends(d, d2, p);
        if kind == 0 {
            lemma_ue_extends(d, d2, p1);
        } else if kind == 1 {
            if let Some(p2) = skip_spec(d, p1, 1) {
                lemma_skip_extends(d, d2, p1, 1);
                if let Some((_, p3)) = se_spec(d, p2) {
                    lemma_se_extends(d, d2, p2);
                    if let Some((_, p4)) = se_spec(d, p3) {
                        lemma_se_extends(d, d2, p3);
                        if let Some((cycle, p5)) = ue_spec(d, p4) {
                            lemma_ue_extends(d, d2, p4);
                            lemma_se_run_extends(d, d2, p5, cycle);
                        }
                    }
                }
            }
        }
    }
}

proof fn lemma_frame_fields_start_extends(d: Seq<u8>, d2: Seq<u8>, profile_idc: u8)
    requires
        extends(d2, d),
        frame_fields_start(d, profile_idc) is Some,
    ensures
        frame_fields_start(d2, profile_idc) == frame_fields_start(d, profile_idc),
{
    if let Some(p) = skip_spec(d, 0, 24) {
        lemma_skip_extends(d, d2, 0, 24);
        if let Some((_, q)) = ue_spec(d, p) {
            lemma_ue_extends(d, d2, p);
            if is_high_profile(profile_idc) {
                lemma_high_profile_fields_extends(d, d2, q);
            }
        }
    }
}

proof fn lemma_dims_start_extends(d: Seq<u8>, d2: Seq<u8>, p: int)
    requires
        extends(d2, d),
        dims_start(d, p) is Some,
    ensures
        dims_start(d2, p) == dims_start(d, p),
{
    if let Some((_, p1)) = ue_spec(d, p) {
        lemma_ue_extends(d, d2, p);
        if let Some(p2) = pic_order_cnt_end(d, p1) {
            lemma_pic_order_cnt_extends(d, d2, p1);
            if let Some((_, p3)) = ue_spec(d, p2) {
                lemma_ue_extends(d, d2, p2);
                lemma_skip_extends(d, d2, p3, 1);
            }
        }
    }
}

proof fn lemma_dims_extends(d: Seq<u8>, d2: Seq<u8>, p: int)
    requires
        extends(d2, d),
        dims_spec(d, p) is Some,
    ensures
        dims_spec(d2, p) == dims_spec(d, p),
{
    if let Some((_, p1)) = ue_spec(d, p) {
        lemma_ue_extends(d, d2, p);
        if let Some((_, p2)) = ue_spec(d, p1) {
            lemma_ue_extends(d, d2, p1);
            if let Some((frame_mbs_only, p3)) = read_bit_spec(d, p2) {
                lemma_read_bit_extends(d, d2, p2);
                let n = if frame_mbs_only == 0 { 2int } else { 1int };
                if let Some(p4) = skip_spec(d, p3, n) {
                    lemma_skip_extends(d, d2, p3, n);
                    if let Some((cropping, p5)) = read_bit_spec(d, p4) {
                        lemma_read_bit_extends(d, d2, p4);
                        if cropping == 1 {
                            if let Some((_, q1)) = ue_spec(d, p5) {
                                lemma_ue_extends(d, d2, p5);
                                if let Some((_, q2)) = ue_spec(d, q1) {
                                    lemma_ue_extends(d, d2, q1);
                                    if let Some((_, q3)) = ue_spec(d, q2) {
                                        lemma_ue_extends(d, d2, q2);
                                        lemma_ue_extends(d, d2, q3);
                                    }
                                }
                            }
                        }
                    }
                }
            }
        }
    }
}

/// Bytes after a sequence parameter set never change a resolution read
/// from it: parsing stops at the frame cropping fields, and the RBSP of the
/// longer data begins with the RBSP of the shorter.
pub proof fn lemma_sps_resolution_extends(sps: Seq<u8>, more: Seq<u8>)
    requires
        sps_resolution(sps) is Some,
    ensures
        sps_resolution(sps + more) == sps_resolution(sps),
{
    reveal(sps_resolution);
    let whole = sps + more;
    let d = unescape(sps.skip(1));
    assert(whole.skip(1) == sps.skip(1) + more);
    let d2 = unescape(whole.skip(1));
    super::lemma_unescape_extends(sps.skip(1), more);
    super::lemma_unescape_len(sps.skip(1));
    assert(whole[1] == sps[1]);
    lemma_frame_fields_start_extends(d, d2, sps[1]);
    let p = frame_fields_start(d, sps[1])->0;
    lemma_dims_start_extends(d, d2, p);
    let q = dims_start(d, p)->0;
    lemma_dims_extends(d, d2, q);
}

/// The position of a reader advanced by a step whose outcome is `step`.
pub open spec fn stepped(r: Option<()>, new_pos: int, step: Option<int>) -> bool {
    match step {
        Some(q) => r is Some && new_pos == q,
        None => r is None,
    }
}

fn is_high_profile_exec(profile_idc: u8) -> (r: bool)
    ensures
        r == is_high_profile(profile_idc),
{
    match profile_idc {
        100 | 110 | 122 | 244 | 44 | 83 | 86 | 118 | 128 => true,
        _ => false,
    }
}

/// Skips a `scaling_list` of `size` entries.
fn skip_scaling_list(reader: &mut BitReader, size: usize) -> (r: Option<()>)
    requires
        old(reader).wf(),
    ensures
        final(reader).wf(),
        final(reader).bytes() == old(reader).bytes(),
        stepped(
            r,
            final(reader).pos(),
            scaling_list_end(old(reader).bytes(), old(reader).pos(), 0, size as int, 8, 8),
        ),
{
    let ghost d = reader.bytes();
    let ghost p0 = reader.pos();
    let mut last_scale: i64 = 8;
    let mut next_scale: i64 = 8;
    let mut j: usize = 0;
    while j < size
        invariant
            reader.wf(),
            reader.bytes() == d,
            d == old(reader).bytes(),
            p0 == old(reader).pos(),
            j <= size,
            -256 < last_scale < 256,
            -256 < next_scale < 256,
            scaling_list_end(d, p0, 0, size as int, 8, 8) == scaling_list_end(
                d,
                reader.pos(),
                j as int,
                size as int,
                last_scale as int,
                next_scale as int,
            ),
        decreases size - j,
    {
        if next_scale != 0 {
            let delta_scale = reader.read_se()?;
            next_scale = (last_scale + delta_scale as i64 + 256) % 256;
        }
        last_scale = if next_scale == 0 {
            last_scale
        } else {
            next_scale
        };
        j = j + 1;
    }
    Some(())
}

/// Skips the scaling list flags and lists of a `seq_scaling_matrix`.
fn skip_scaling_matrix(reader: &mut BitReader, count: usize) -> (r: Option<()>)
    requires
        old(reader).wf(),
    ensures
        final(reader).wf(),
        final(reader).bytes() == old(reader).bytes(),
        stepped(
            r,
            final(reader).pos(),
            scaling_matrix_end(old(reader).bytes(), old(reader).pos(), 0, count as int),
        ),
{
    let ghost d = reader.bytes();
    let ghost p0 = reader.pos();
    let mut i: usize = 0;
    while i < count
        invariant
            reader.wf(),
            reader.bytes() == d,
            d == old(reader).bytes(),
            p0 == old(reader).pos(),
            i <= count,
            scaling_matrix_end(d, p0, 0, count as int) == scaling_matrix_end(
                d,
                reader.pos(),
                i as int,
                count as int,
            ),
        decreases count - i,
    {
        let present = reader.read_bit()?;
        if present == 1 {
            let size: usize = if i < 6 {
                16
            } else {
                64
            };
            skip_scaling_list(reader, size)?;
        }
        i = i + 1;
    }
    Some(())
}

/// Skips the fields that high profiles add after `seq_parameter_set_id`.
fn skip_high_profile_fields(reader: &mut BitReader) -> (r: Option<()>)
    requires
        old(reader).wf(),
    ensures
        final(reader).wf(),
        final(reader).bytes() == old(reader).bytes(),
        stepped(
            r,
            final(reader).pos(),
            high_profile_fields_end(old(reader).bytes(), old(reader).pos()),
        ),
{
    let ghost d = reader.bytes();
    let ghost p0 = reader.pos();
    let chroma_format_idc = reader.read_ue()?;
    proof {
        lemma_ue_bounds(d, p0);
    }
    if chroma_format_idc == 3 {
        reader.skip(1)?;
    }
    reader.read_ue()?;
    reader.read_ue()?;
    reader.skip(1)?;
    let seq_scaling_matrix_present_flag = reader.read_bit()?;
    if seq_scaling_matrix_present_flag == 1 {
        let count: usize = if chroma_format_idc != 3 {
            8
        } else {
            12
        };
        skip_scaling_matrix(reader, count)?;
    }
    Some(())
}

/// Skips `pic_order_cnt_type` and the fields it selects.
fn skip_pic_order_cnt(reader: &mut BitReader) -> (r: Option<()>)
    requires
        old(reader).wf(),
    ensures
        final(reader).wf(),
        final(reader).bytes() == old(reader).bytes(),
        stepped(r, final(reader).pos(), pic_order_cnt_end(old(reader).bytes(), old(reader).pos())),
{
    let ghost d = reader.bytes();
    let pic_order_cnt_type = reader.read_ue()?;
    if pic_order_cnt_type == 0 {
        reader.read_ue()?;
    } else if pic_order_cnt_type == 1 {
        reader.skip(1)?;
        reader.read_se()?;
        reader.read_se()?;
        let num_ref_frames_in_pic_order_cnt_cycle = reader.read_ue()?;
        let ghost p_cycle = reader.pos();
        assert(pic_order_cnt_end(d, old(reader).pos()) == se_run_end(
            d,
            p_cycle,
            num_ref_frames_in_pic_order_cnt_cycle as nat,
        ));
        let mut i: u32 = 0;
        while i < num_ref_frames_in_pic_order_cnt_cycle
            invariant
                reader.wf(),
                reader.bytes() == d,
                d == old(reader).bytes(),
                pic_order_cnt_end(d, old(reader).pos()) == se_run_end(
                    d,
                    p_cycle,
                    num_ref_frames_in_pic_order_cnt_cycle as nat,
                ),
                i <= num_ref_frames_in_pic_order_cnt_cycle,
                se_run_end(d, p_cycle, num_ref_frames_in_pic_order_cnt_cycle as nat) == se_run_end(
                    d,
                    reader.pos(),
                    (num_ref_frames_in_pic_order_cnt_cycle - i) as nat,
                ),
            decreases num_ref_frames_in_pic_order_cnt_cycle - i,
        {
            reader.read_se()?;
            i = i + 1;
        }
    }
    Some(())
}

/// Skips the fields that open every SPS.
fn skip_header(reader: &mut BitReader) -> (r: Option<()>)
    requires
        old(reader).wf(),
        old(reader).pos() == 0,
    ensures
        final(reader).wf(),
        final(reader).bytes() == old(reader).bytes(),
        stepped(r, final(reader).pos(), header_end(old(reader).bytes())),
{
    reader.skip(8)?;
    reader.skip(8)?;
    reader.skip(8)?;
    reader.read_ue()?;
    Some(())
}

/// Skips from `log2_max_frame_num_minus4` to `pic_width_in_mbs_minus1`.
fn skip_to_dims(reader: &mut BitReader) -> (r: Option<()>)
    requires
        old(reader).wf(),
    ensures
        final(reader).wf(),
        final(reader).bytes() == old(reader).bytes(),
        stepped(r, final(reader).pos(), dims_start(old(reader).bytes(), old(reader).pos())),
{
    reader.read_ue()?;
    skip_pic_order_cnt(reader)?;
    reader.read_ue()?;
    reader.skip(1)?;
    Some(())
}

/// The display size from the coded frame size fields, as
/// [`dims_from_fields`] computes it.
fn display_dims(
    pic_width_in_mbs_minus1: u32,
    pic_height_in_map_units_minus1: u32,
    frame_mbs_only_flag: u8,
    crop: Option<(u32, u32, u32, u32)>,
) -> (r: Option<(u32, u32)>)
    requires
        frame_mbs_only_flag <= 1,
    ensures
        r == dims_from_fields(
            pic_width_in_mbs_minus1 as nat,
            pic_height_in_map_units_minus1 as nat,
            frame_mbs_only_flag,
            match crop {
                None => None,
                Some((l, r, t, b)) => Some((l as nat, r as nat, t as nat, b as nat)),
            },
        ),
{
    let field_factor: u64 = 2 - frame_mbs_only_flag as u64;
    let coded_height: u64 = (pic_height_in_map_units_minus1 as u64 + 1) * 16;
    let mut width: u64 = (pic_width_in_mbs_minus1 as u64 + 1) * 16;
    let mut height: u64 = if field_factor == 2 {
        coded_height * 2
    } else {
        coded_height
    };
    // H.264 §7.4.2.1.1: frame_cropping_flag trims the macroblock-aligned
    // size to the true display size. For 4:2:0 content each crop unit is
    // two luma samples; without this a 1080p stream reports 1088.
    if let Some((crop_left, crop_right, crop_top, crop_bottom)) = crop {
        let vertical: u64 = 2 * (crop_top as u64 + crop_bottom as u64);
        width = width.saturating_sub(2 * (crop_left as u64 + crop_right as u64));
        height = height.saturating_sub(if field_factor == 2 {
            vertical * 2
        } else {
            vertical
        });
    }
    proof {
        let h: int = (pic_height_in_map_units_minus1 + 1) * 16 * (2 - frame_mbs_only_flag);
        if frame_mbs_only_flag == 0 {
            assert(h == coded_height * 2);
        } else {
            assert(h == coded_height);
        }
        if let Some((l, r, t, b)) = crop {
            let f: int = 2 - frame_mbs_only_flag;
            let tb: int = (t + b) as int;
            assert(f * 2 * tb == if f == 2 { 2 * tb * 2 } else { 2 * tb }) by (nonlinear_arith)
                requires
                    f == 1 || f == 2,
            ;
        }
    }
    if width > 0xffff_ffffu64 || height > 0xffff_ffffu64 {
        return None;
    }
    Some((width as u32, height as u32))
}

/// Reads the frame size fields and computes the display size.
fn read_dims(reader: &mut BitReader) -> (r: Option<(u32, u32)>)
    requires
        old(reader).wf(),
    ensures
        r == dims_spec(old(reader).bytes(), old(reader).pos()),
{
    let ghost d = reader.bytes();
    let pic_width_in_mbs_minus1 = reader.read_ue()?;
    let pic_height_in_map_units_minus1 = reader.read_ue()?;
    let ghost p2 = reader.pos();
    let frame_mbs_only_flag = reader.read_bit()?;
    proof {
        lemma_bit_at_le_1(d, p2);
    }
    if frame_mbs_only_flag == 0 {
        // mb_adaptive_frame_field_flag
        reader.skip(1)?;
    }
    // direct_8x8_inference_flag
    reader.skip(1)?;
    let frame_cropping_flag = reader.read_bit()?;
    let crop = if frame_cropping_flag == 1 {
        let crop_left = reader.read_ue()?;
        let crop_right = reader.read_ue()?;
        let crop_top = reader.read_ue()?;
        let crop_bottom = reader.read_ue()?;
        Some((crop_left, crop_right, crop_top, crop_bottom))
    } else {
        None
    };
    display_dims(
        pic_width_in_mbs_minus1,
        pic_height_in_map_units_minus1,
        frame_mbs_only_flag,
        crop,
    )
}

/// Display resolution of an SPS NAL unit (header byte included).
pub(crate) fn parse_sps_resolution(sps: &[u8]) -> (r: Option<(u32, u32)>)
    ensures
        r == sps_resolution(sps@),
{
    reveal(sps_resolution);
    if sps.len() == 0 {
        return None;
    }
    // Emulation-prevention bytes are stripped before bit-level parsing
    // (H.264 §7.4.1); the NAL header byte is not part of the RBSP.
    let payload = slice_subrange(sps, 1, sps.len());
    assert(payload@ == sps@.skip(1));
    let rbsp = remove_emulation_prevention_bytes(payload);
    let mut reader = BitReader::new(rbsp.as_slice());
    skip_header(&mut reader)?;
    proof {
        super::lemma_unescape_len(sps@.skip(1));
    }
    let profile_idc = sps[1];
    if is_high_profile_exec(profile_idc) {
        skip_high_profile_fields(&mut reader)?;
    }
    skip_to_dims(&mut reader)?;
    read_dims(&mut reader)
}

} // verus!
