//! H.264 Annex B byte-stream helpers: splitting a stream into NAL units and
//! reading the display resolution out of its sequence parameter set.
use vstd::prelude::*;
use vstd::slice::slice_subrange;

mod bits;
mod sps;

pub use self::sps::sps_resolution;

verus! {

/// `nal_unit_type` of a sequence parameter set.
pub const NAL_TYPE_SPS: u8 = 7;

/// Length of the start code (`00 00 01` or `00 00 00 01`) that begins at
/// index `i` of `d`, or 0 when none does.
pub open spec fn start_code_len(d: Seq<u8>, i: int) -> int {
    if 0 <= i && i + 2 < d.len() && d[i] == 0 && d[i + 1] == 0 && d[i + 2] == 1 {
        3
    } else if 0 <= i && i + 3 < d.len() && d[i] == 0 && d[i + 1] == 0 && d[i + 2] == 0 && d[i
        + 3] == 1 {
        4
    } else {
        0
    }
}

/// The first start code that begins at index `i` or later: where it begins
/// and where the NAL unit after it begins.
pub open spec fn next_start_code(d: Seq<u8>, i: int) -> Option<(int, int)>
    decreases d.len() - i,
{
    if i < 0 || i + 2 >= d.len() {
        None
    } else if start_code_len(d, i) > 0 {
        Some((i, i + start_code_len(d, i)))
    } else {
        next_start_code(d, i + 1)
    }
}

/// A start code found from `i` lies after `i` and inside the data.
pub proof fn lemma_next_start_code_bounds(d: Seq<u8>, i: int)
    requires
        next_start_code(d, i) is Some,
    ensures
        next_start_code(d, i) matches Some((b, s)) && {
            &&& i <= b
            &&& s <= d.len()
            &&& s == b + start_code_len(d, b)
            &&& start_code_len(d, b) > 0
            &&& forall|k: int| i <= k < b ==> start_code_len(d, k) == 0
        },
    decreases d.len() - i,
{
    if !(i < 0 || i + 2 >= d.len()) && start_code_len(d, i) == 0 {
        lemma_next_start_code_bounds(d, i + 1);
    }
}

/// Byte ranges `(start, end)` of the NAL units of `d` that follow a start
/// code found at index `i` or later: each runs from the end of its start
/// code to the beginning of the next one, the last to the end of the data.
pub open spec fn nal_ranges(d: Seq<u8>, i: int) -> Seq<(int, int)>
    decreases d.len() - i,
{
    match next_start_code(d, i) {
        None => Seq::empty(),
        Some((_, s)) => match next_start_code(d, s) {
            None => seq![(s, d.len() as int)],
            Some((b, _)) => {
                proof {
                    lemma_next_start_code_bounds(d, i);
                    lemma_next_start_code_bounds(d, s);
                }
                seq![(s, b)] + nal_ranges(d, b)
            },
        },
    }
}

/// The NAL units of an Annex B byte stream, in stream order.
pub open spec fn nal_units(d: Seq<u8>) -> Seq<Seq<u8>> {
    nal_ranges(d, 0).map_values(|r: (int, int)| d.subrange(r.0, r.1))
}

/// Whether a NAL unit is a sequence parameter set.
pub open spec fn is_sps_nal(nal: Seq<u8>) -> bool {
    nal.len() > 0 && nal[0] & 0x1f == NAL_TYPE_SPS
}

/// Resolution of the first SPS among `nals`.
pub open spec fn first_sps_resolution(nals: Seq<Seq<u8>>) -> Option<(u32, u32)>
    decreases nals.len(),
{
    if nals.len() == 0 {
        None
    } else if is_sps_nal(nals[0]) {
        sps_resolution(nals[0])
    } else {
        first_sps_resolution(nals.drop_first())
    }
}

/// Display resolution announced by the first SPS NAL unit of the stream.
pub open spec fn stream_resolution(d: Seq<u8>) -> Option<(u32, u32)> {
    first_sps_resolution(nal_units(d))
}

/// The RBSP of a NAL unit payload: every `00 00 03` loses its `03`, the
/// emulation-prevention byte, and scanning resumes after it.
pub open spec fn unescape(d: Seq<u8>) -> Seq<u8>
    decreases d.len(),
{
    if d.len() == 0 {
        Seq::empty()
    } else if d.len() >= 3 && d[0] == 0 && d[1] == 0 && d[2] == 3 {
        seq![0u8, 0u8] + unescape(d.skip(3))
    } else {
        seq![d[0]] + unescape(d.skip(1))
    }
}

/// The RBSP of a payload followed by more bytes begins with the RBSP of the
/// payload alone.
pub proof fn lemma_unescape_extends(a: Seq<u8>, e: Seq<u8>)
    ensures
        self::bits::extends(unescape(a + e), unescape(a)),
    decreases a.len(),
{
    let ae = a + e;
    if a.len() > 0 {
        let pattern = ae.len() >= 3 && ae[0] == 0 && ae[1] == 0 && ae[2] == 3;
        if pattern && a.len() < 3 {
            assert(a == Seq::<u8>::new(a.len(), |k: int| 0u8));
            lemma_unescape_zeros(a.len());
        } else if pattern {
            assert(ae.skip(3) == a.skip(3) + e);
            lemma_unescape_extends(a.skip(3), e);
        } else {
            assert(ae.skip(1) == a.skip(1) + e);
            lemma_unescape_extends(a.skip(1), e);
        }
    }
}

/// Removing emulation-prevention bytes never lengthens the data.
pub proof fn lemma_unescape_len(d: Seq<u8>)
    ensures
        unescape(d).len() <= d.len(),
    decreases d.len(),
{
    if d.len() >= 3 && d[0] == 0 && d[1] == 0 && d[2] == 3 {
        lemma_unescape_len(d.skip(3));
    } else if d.len() > 0 {
        lemma_unescape_len(d.skip(1));
    }
}

/// The resolution reported for a stream is that of the first of its NAL
/// units that is an SPS; a stream without an SPS has none.
pub proof fn lemma_stream_resolution_source(d: Seq<u8>)
    ensures
        (forall|k: int| 0 <= k < nal_units(d).len() ==> !is_sps_nal(#[trigger] nal_units(d)[k]))
            ==> stream_resolution(d) is None,
        forall|k: int|
            0 <= k < nal_units(d).len() && is_sps_nal(#[trigger] nal_units(d)[k]) && (forall|j: int|
                0 <= j < k ==> !is_sps_nal(nal_units(d)[j])) ==> stream_resolution(d)
                == sps_resolution(nal_units(d)[k]),
{
    let units = nal_units(d);
    assert forall|k: int| 0 <= k <= units.len() && (forall|j: int| 0 <= j < k ==> !is_sps_nal(units[j])) implies first_sps_resolution(units) == first_sps_resolution(units.skip(k)) by {
        lemma_first_sps_skip(units, k);
    }
    assert(units.skip(units.len() as int) =~= Seq::<Seq<u8>>::empty());
    assert forall|k: int| 0 <= k < units.len() && is_sps_nal(#[trigger] units[k]) && (forall|j: int|
        0 <= j < k ==> !is_sps_nal(units[j])) implies first_sps_resolution(units) == sps_resolution(units[k]) by {
        lemma_first_sps_skip(units, k);
        assert(units.skip(k)[0] == units[k]);
    }
}

/// Skipping NAL units that are not SPSs does not change the first SPS.
proof fn lemma_first_sps_skip(units: Seq<Seq<u8>>, k: int)
    requires
        0 <= k <= units.len(),
        forall|j: int| 0 <= j < k ==> !is_sps_nal(units[j]),
    ensures
        first_sps_resolution(units) == first_sps_resolution(units.skip(k)),
    decreases k,
{
    if k > 0 {
        lemma_first_sps_skip(units, k - 1);
        assert(units.skip(k - 1)[0] == units[k - 1]);
        assert(units.skip(k - 1).drop_first() == units.skip(k));
    } else {
        assert(units.skip(0) == units);
    }
}

/// Each NAL unit lies right after a start code, and no start code begins
/// inside it: the stream is cut exactly at its start codes.
pub proof fn lemma_nal_ranges_split(d: Seq<u8>, i: int)
    requires
        0 <= i,
    ensures
        forall|j: int|
            0 <= j < nal_ranges(d, i).len() ==> {
                let (s, e) = #[trigger] nal_ranges(d, i)[j];
                &&& i < s <= e <= d.len()
                &&& start_code_len(d, s - 3) == 3 || start_code_len(d, s - 4) == 4
                &&& forall|k: int| s <= k < e ==> start_code_len(d, k) == 0
            },
    decreases d.len() - i,
{
    match next_start_code(d, i) {
        None => {},
        Some((b, s)) => {
            lemma_next_start_code_bounds(d, i);
            match next_start_code(d, s) {
                None => {
                    lemma_no_start_code_after(d, s);
                },
                Some((nb, _)) => {
                    lemma_next_start_code_bounds(d, s);
                    lemma_nal_ranges_split(d, nb);
                    let tail = nal_ranges(d, nb);
                    assert forall|j: int| 0 <= j < nal_ranges(d, i).len() implies {
                        let (s2, e2) = #[trigger] nal_ranges(d, i)[j];
                        &&& i < s2 <= e2 <= d.len()
                        &&& start_code_len(d, s2 - 3) == 3 || start_code_len(d, s2 - 4) == 4
                        &&& forall|k: int| s2 <= k < e2 ==> start_code_len(d, k) == 0
                    } by {
                        if j > 0 {
                            assert(nal_ranges(d, i)[j] == tail[j - 1]);
                        }
                    }
                },
            }
        },
    }
}

/// Without a start code found from `i`, none begins at `i` or later.
proof fn lemma_no_start_code_after(d: Seq<u8>, i: int)
    requires
        0 <= i,
        next_start_code(d, i) is None,
    ensures
        forall|k: int| i <= k ==> start_code_len(d, k) == 0,
    decreases d.len() - i,
{
    if i + 2 < d.len() {
        lemma_no_start_code_after(d, i + 1);
    }
}

/// Whether a NAL unit is an SPS depends on its `nal_unit_type` alone, the
/// low five bits of its header byte, whatever `nal_ref_idc` is.
pub proof fn lemma_is_sps_nal_type(n: Seq<u8>)
    requires
        n.len() > 0,
    ensures
        is_sps_nal(n) <==> n[0] % 32 == 7,
{
    let b = n[0];
    assert(b & 0x1f == b % 32) by (bit_vector);
}

/// When no start code begins at `i` or later, the search from `i` finds none.
proof fn lemma_no_start_code_none(d: Seq<u8>, i: int)
    requires
        0 <= i,
        forall|k: int| i <= k ==> #[trigger] start_code_len(d, k) == 0,
    ensures
        next_start_code(d, i) is None,
    decreases d.len() - i,
{
    if i + 2 < d.len() {
        assert(start_code_len(d, i) == 0);
        lemma_no_start_code_none(d, i + 1);
    }
}

/// A stream made of one start code, three- or four-byte, and one NAL unit
/// without a pair of zero bytes has that unit's resolution when its
/// `nal_unit_type` is 7, and none otherwise.
pub proof fn lemma_single_nal_stream(n: Seq<u8>, four_byte: bool)
    requires
        n.len() > 0,
        forall|k: int| 0 <= k && k + 1 < n.len() ==> #[trigger] n[k] != 0 || n[k + 1] != 0,
    ensures
        stream_resolution(
            (if four_byte { seq![0u8, 0u8, 0u8, 1u8] } else { seq![0u8, 0u8, 1u8] }) + n,
        ) == if n[0] % 32 == 7 {
            sps_resolution(n)
        } else {
            None
        },
{
    let prefix = if four_byte {
        seq![0u8, 0u8, 0u8, 1u8]
    } else {
        seq![0u8, 0u8, 1u8]
    };
    let d = prefix + n;
    let s = prefix.len() as int;
    assert(start_code_len(d, 0) == s);
    assert(next_start_code(d, 0) == Some((0int, s)));
    assert forall|k: int| s <= k implies #[trigger] start_code_len(d, k) == 0 by {
        if k + 1 < d.len() {
            assert(d[k] == n[k - s] && d[k + 1] == n[k + 1 - s]);
        }
    }
    lemma_no_start_code_none(d, s);
    assert(nal_ranges(d, 0) == seq![(s, d.len() as int)]);
    assert(d.subrange(s, d.len() as int) == n);
    assert(nal_units(d) == seq![n]);
    assert(seq![n].drop_first() == Seq::<Seq<u8>>::empty());
    assert(first_sps_resolution(Seq::<Seq<u8>>::empty()) is None);
    assert(seq![n][0] == n);
    lemma_is_sps_nal_type(n);
    assert(stream_resolution(d) == first_sps_resolution(seq![n]));
}

/// Emulation prevention as an encoder applies it to an RBSP `r`, having
/// just written `zeros` consecutive zero bytes: a `03` goes in front of any
/// byte of at most `03` that follows two zero bytes.
pub open spec fn escape_from(r: Seq<u8>, zeros: nat) -> Seq<u8>
    decreases r.len(),
{
    if r.len() == 0 {
        Seq::empty()
    } else if zeros >= 2 && r[0] <= 3 {
        seq![3u8, r[0]] + escape_from(r.skip(1), if r[0] == 0 { 1 } else { 0 })
    } else {
        seq![r[0]] + escape_from(r.skip(1), if r[0] == 0 { zeros + 1 } else { 0 })
    }
}

/// Removing emulation-prevention bytes undoes their insertion.
pub proof fn lemma_unescape_escape(r: Seq<u8>)
    ensures
        unescape(escape_from(r, 0)) == r,
{
    lemma_unescape_escape_from(r, 0);
    assert(Seq::<u8>::new(0, |k: int| 0u8) + escape_from(r, 0) == escape_from(r, 0));
    assert(Seq::<u8>::new(0, |k: int| 0u8) + r == r);
}

proof fn lemma_unescape_escape_from(r: Seq<u8>, zeros: nat)
    requires
        zeros <= 2,
    ensures
        unescape(Seq::new(zeros, |k: int| 0u8) + escape_from(r, zeros)) == Seq::new(
            zeros,
            |k: int| 0u8,
        ) + r,
    decreases r.len(), zeros,
{
    let z = Seq::<u8>::new(zeros, |k: int| 0u8);
    if r.len() == 0 {
        lemma_unescape_zeros(zeros);
        assert(z + escape_from(r, zeros) == z);
        assert(z + r == z);
    } else {
        let r0 = r[0];
        let rest = r.skip(1);
        if zeros >= 2 && r0 <= 3 {
            let next: nat = if r0 == 0 { 1 } else { 0 };
            let tail = escape_from(rest, next);
            let whole = z + (seq![3u8, r0] + tail);
            assert(whole.skip(3) == seq![r0] + tail);
            assert(whole[0] == 0 && whole[1] == 0 && whole[2] == 3);
            lemma_unescape_escape_from(rest, next);
            if r0 == 0 {
                assert(seq![r0] + tail == Seq::<u8>::new(1, |k: int| 0u8) + tail);
                assert(Seq::<u8>::new(1, |k: int| 0u8) + rest == seq![r0] + rest);
            } else {
                lemma_unescape_nonzero_head(r0, tail);
                assert(Seq::<u8>::new(0, |k: int| 0u8) + tail == tail);
                assert(Seq::<u8>::new(0, |k: int| 0u8) + rest == rest);
            }
            assert(z + r == seq![0u8, 0u8] + (seq![r0] + rest));
        } else if r0 == 0 {
            let tail = escape_from(rest, zeros + 1);
            lemma_unescape_escape_from(rest, zeros + 1);
            assert(z + (seq![r0] + tail) == Seq::<u8>::new(zeros + 1, |k: int| 0u8) + tail);
            assert(z + r == Seq::<u8>::new(zeros + 1, |k: int| 0u8) + rest);
        } else {
            let tail = escape_from(rest, 0);
            lemma_unescape_escape_from(rest, 0);
            assert(Seq::<u8>::new(0, |k: int| 0u8) + tail == tail);
            assert(Seq::<u8>::new(0, |k: int| 0u8) + rest == rest);
            lemma_unescape_nonzero_head(r0, tail);
            lemma_unescape_zero_run(zeros, r0, tail);
            assert(z + r == z + (seq![r0] + rest));
        }
    }
}

/// A run of zero bytes has no emulation-prevention byte.
proof fn lemma_unescape_zeros(n: nat)
    ensures
        unescape(Seq::new(n, |k: int| 0u8)) == Seq::new(n, |k: int| 0u8),
    decreases n,
{
    let z = Seq::<u8>::new(n, |k: int| 0u8);
    if n > 0 {
        lemma_unescape_zeros((n - 1) as nat);
        assert(z.skip(1) == Seq::<u8>::new((n - 1) as nat, |k: int| 0u8));
        assert(z == seq![0u8] + z.skip(1));
    }
}

/// A leading non-zero byte is copied as is.
proof fn lemma_unescape_nonzero_head(b: u8, t: Seq<u8>)
    requires
        b != 0,
    ensures
        unescape(seq![b] + t) == seq![b] + unescape(t),
{
    assert((seq![b] + t).skip(1) == t);
}

/// Fewer than three zero bytes followed by a byte other than `03`, `00`
/// are copied as is.
proof fn lemma_unescape_zero_run(zeros: nat, b: u8, t: Seq<u8>)
    requires
        zeros <= 2,
        b != 0,
        zeros == 2 ==> b > 3,
        unescape(seq![b] + t) == seq![b] + unescape(t),
    ensures
        unescape(Seq::new(zeros, |k: int| 0u8) + (seq![b] + t)) == Seq::new(
            zeros,
            |k: int| 0u8,
        ) + (seq![b] + unescape(t)),
    decreases zeros,
{
    let z = Seq::<u8>::new(zeros, |k: int| 0u8);
    if zeros > 0 {
        let smaller = Seq::<u8>::new((zeros - 1) as nat, |k: int| 0u8);
        let whole = z + (seq![b] + t);
        assert(whole == seq![0u8] + (smaller + (seq![b] + t)));
        assert(whole.skip(1) == smaller + (seq![b] + t));
        lemma_unescape_zero_run((zeros - 1) as nat, b, t);
        assert(z + (seq![b] + unescape(t)) == seq![0u8] + (smaller + (seq![b] + unescape(t))));
    } else {
        assert(z + (seq![b] + t) == seq![b] + t);
        assert(z + (seq![b] + unescape(t)) == seq![b] + unescape(t));
    }
}

/// Scans the stream for an SPS NAL unit and returns the display resolution
/// `(width, height)` encoded in it.
///
/// Returns `None` if no SPS NAL unit is found or if the SPS data cannot be
/// parsed. The resolution accounts for `frame_cropping_flag`, so it is the
/// true display size (e.g. 1080, not 1088).
pub fn extract_resolution_from_stream(data: &[u8]) -> (r: Option<(u32, u32)>)
    ensures
        r == stream_resolution(data@),
{
    let nals = find_nal_units(data);
    let ghost units = nal_units(data@);
    proof {
        assert forall|j: int| 0 <= j < nals@.len() implies #[trigger] units[j] == data@.subrange(
            nals@[j].0 as int,
            nals@[j].1 as int,
        ) by {
            let rng = nal_ranges(data@, 0)[j];
            assert(rng.0 == nals@[j].0 as int && rng.1 == nals@[j].1 as int);
        }
        assert(units.skip(0) == units);
    }
    let mut k: usize = 0;
    while k < nals.len()
        invariant
            k <= nals@.len(),
            nals@.len() == units.len(),
            units == nal_units(data@),
            forall|j: int| 0 <= j < nals@.len() ==> 0 <= #[trigger] nals@[j].0 <= nals@[j].1 <= data@.len(),
            forall|j: int|
                0 <= j < nals@.len() ==> #[trigger] units[j] == data@.subrange(
                    nals@[j].0 as int,
                    nals@[j].1 as int,
                ),
            first_sps_resolution(units) == first_sps_resolution(units.skip(k as int)),
        decreases nals@.len() - k,
    {
        let (start, end) = nals[k];
        let nal = slice_subrange(data, start, end);
        assert(nal@ == units[k as int]);
        assert(units.skip(k as int)[0] == units[k as int]);
        assert(units.skip(k as int).drop_first() == units.skip(k + 1));
        if nal.len() != 0 && (nal[0] & 0x1F) == NAL_TYPE_SPS {
            return sps::parse_sps_resolution(nal);
        }
        k = k + 1;
    }
    None
}

/// Ranges of the NAL units of `data`, as [`nal_ranges`] describes them.
fn find_nal_units(data: &[u8]) -> (r: Vec<(usize, usize)>)
    ensures
        r@.len() == nal_ranges(data@, 0).len(),
        forall|j: int|
            0 <= j < r@.len() ==> r@[j].0 as int == (#[trigger] nal_ranges(data@, 0)[j]).0
                && r@[j].1 as int == nal_ranges(data@, 0)[j].1,
        forall|j: int| 0 <= j < r@.len() ==> 0 <= #[trigger] r@[j].0 <= r@[j].1 <= data@.len(),
{
    let mut nals: Vec<(usize, usize)> = Vec::new();
    let mut i: usize = 0;
    let ghost d = data@;
    loop
        invariant_except_break
            nal_ranges(d, 0) == nals@.map_values(|r: (usize, usize)| (r.0 as int, r.1 as int))
                + nal_ranges(d, i as int),
        invariant
            d == data@,
            i <= d.len(),
            forall|j: int| 0 <= j < nals@.len() ==> 0 <= #[trigger] nals@[j].0 <= nals@[j].1 <= d.len(),
        ensures
            nal_ranges(d, 0) == nals@.map_values(|r: (usize, usize)| (r.0 as int, r.1 as int)),
        decreases d.len() - i,
    {
        match find_start_code(data, i) {
            None => {
                assert(nals@.map_values(|r: (usize, usize)| (r.0 as int, r.1 as int))
                    + nal_ranges(d, i as int) == nals@.map_values(
                    |r: (usize, usize)| (r.0 as int, r.1 as int),
                ));
                break;
            },
            Some((_, start)) => {
                proof {
                    lemma_next_start_code_bounds(d, i as int);
                }
                match find_start_code(data, start) {
                    Some((next_begin, _)) => {
                        proof {
                            lemma_next_start_code_bounds(d, start as int);
                        }
                        let ghost old_nals = nals@;
                        nals.push((start, next_begin));
                        let ghost old_view = old_nals.map_values(
                            |r: (usize, usize)| (r.0 as int, r.1 as int),
                        );
                        let ghost new_view = nals@.map_values(
                            |r: (usize, usize)| (r.0 as int, r.1 as int),
                        );
                        assert(new_view == old_view + seq![(start as int, next_begin as int)]);
                        assert(nal_ranges(d, i as int) == seq![(start as int, next_begin as int)]
                            + nal_ranges(d, next_begin as int));
                        assert(old_view + (seq![(start as int, next_begin as int)] + nal_ranges(
                            d,
                            next_begin as int,
                        )) == new_view + nal_ranges(d, next_begin as int));
                        i = next_begin;
                    },
                    None => {
                        let ghost old_nals = nals@;
                        nals.push((start, data.len()));
                        assert(nals@.map_values(|r: (usize, usize)| (r.0 as int, r.1 as int))
                            == old_nals.map_values(|r: (usize, usize)| (r.0 as int, r.1 as int))
                            + seq![(start as int, d.len() as int)]);
                        assert(nal_ranges(d, 0) == nals@.map_values(
                            |r: (usize, usize)| (r.0 as int, r.1 as int),
                        ));
                        break;
                    },
                }
            },
        }
    }
    assert forall|j: int| 0 <= j < nals@.len() implies nals@[j].0 as int == (#[trigger] nal_ranges(
        d,
        0,
    )[j]).0 && nals@[j].1 as int == nal_ranges(d, 0)[j].1 by {
        let v = nals@.map_values(|r: (usize, usize)| (r.0 as int, r.1 as int));
        assert(v[j] == (nals@[j].0 as int, nals@[j].1 as int));
    }
    nals
}

/// The first start code that begins at `offset` or later, as
/// [`next_start_code`] describes it.
fn find_start_code(data: &[u8], offset: usize) -> (r: Option<(usize, usize)>)
    ensures
        match next_start_code(data@, offset as int) {
            Some((b, s)) => r matches Some((rb, rs)) && rb == b && rs == s,
            None => r is None,
        },
{
    let ghost d = data@;
    let end = if data.len() >= 2 {
        data.len() - 2
    } else {
        0
    };
    let mut i = offset;
    while i < end
        invariant
            d == data@,
            end as int == if d.len() >= 2 { d.len() - 2 } else { 0 },
            offset <= i,
            next_start_code(d, offset as int) == next_start_code(d, i as int),
        decreases end - i,
    {
        if data[i] == 0 && data[i + 1] == 0 {
            if data[i + 2] == 1 {
                return Some((i, i + 3));
            }
            if i + 3 < data.len() && data[i + 2] == 0 && data[i + 3] == 1 {
                return Some((i, i + 4));
            }
        }
        i = i + 1;
    }
    None
}

/// Removes H.264 emulation-prevention bytes from a NAL unit payload,
/// producing the Raw Byte Sequence Payload (RBSP).
///
/// The encoder inserts `0x03` after every `0x00 0x00` pair of the RBSP that
/// would otherwise read as a start code; bit-level parsing needs them gone.
pub(crate) fn remove_emulation_prevention_bytes(data: &[u8]) -> (r: Vec<u8>)
    ensures
        r@ == unescape(data@),
{
    let ghost d = data@;
    let mut result: Vec<u8> = Vec::with_capacity(data.len());
    let mut i: usize = 0;
    assert(d.skip(0) == d);
    while i < data.len()
        invariant
            d == data@,
            i <= d.len(),
            result@ + unescape(d.skip(i as int)) == unescape(d),
        decreases d.len() - i,
    {
        let ghost rest = d.skip(i as int);
        // 0x00 0x00 0x03 -> 0x00 0x00 (drop the 0x03)
        if data.len() - i > 2 && data[i] == 0x00 && data[i + 1] == 0x00 && data[i + 2] == 0x03 {
            result.push(data[i]);
            result.push(data[i + 1]);
            assert(rest.skip(3) == d.skip(i + 3));
            i = i + 3;
        } else {
            result.push(data[i]);
            assert(rest.skip(1) == d.skip(i + 1));
            i = i + 1;
        }
    }
    assert(d.skip(d.len() as int) == Seq::<u8>::empty());
    result
}

} // verus!
