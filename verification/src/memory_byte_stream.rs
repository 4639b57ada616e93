//! NAL units of an H.264 bit stream: cutting a buffer into units and reading a
//! unit's type.
//!
//! A buffer comes in one of two framings. In Annex-B framing every unit follows a
//! start code, `00 00 01` or `00 00 00 01`. In length-prefixed framing every unit
//! follows its length, four bytes with the most significant one first. A buffer
//! that holds a start code anywhere is taken as Annex-B.
use vstd::prelude::*;
use vstd::slice::{slice_subrange, slice_to_vec};

verus! {

/// The bytes of each unit.
pub open spec fn units_view(units: Seq<Vec<u8>>) -> Seq<Seq<u8>> {
    units.map_values(|unit: Vec<u8>| unit@)
}

/// `00 00 01` stands at position `p`.
pub open spec fn start_code_at(data: Seq<u8>, p: int) -> bool {
    &&& 0 <= p
    &&& p + 3 <= data.len()
    &&& data[p] == 0
    &&& data[p + 1] == 0
    &&& data[p + 2] == 1
}

/// `00 00 01` stands somewhere in `data`.
pub open spec fn has_start_code(data: Seq<u8>) -> bool {
    exists|p: int| start_code_at(data, p)
}

/// The start code at `p` opens a unit. In the last three bytes of the buffer only
/// the four-byte form does.
pub open spec fn opens_unit(data: Seq<u8>, p: int) -> bool {
    start_code_at(data, p) && (p + 3 < data.len() || (p >= 1 && data[p - 1] == 0))
}

/// Where the start code at `p` begins: one byte earlier in its four-byte form.
pub open spec fn code_begin(data: Seq<u8>, p: int) -> int {
    if p >= 1 && data[p - 1] == 0 {
        p - 1
    } else {
        p
    }
}

/// The first position from `from` on at which a unit is opened; `data.len()` if
/// there is none.
pub open spec fn next_opening(data: Seq<u8>, from: int) -> int
    decreases data.len() - from,
{
    if from >= data.len() {
        data.len() as int
    } else if opens_unit(data, from) {
        from
    } else {
        next_opening(data, from + 1)
    }
}

/// The unit alone, or nothing if it is empty.
pub open spec fn unless_empty(unit: Seq<u8>) -> Seq<Seq<u8>> {
    if unit.len() == 0 {
        Seq::empty()
    } else {
        seq![unit]
    }
}

/// The units of the rest of an Annex-B buffer, the first of which starts at `start`:
/// each reaches up to the next start code, the last one to the end.
pub open spec fn units_from(data: Seq<u8>, start: int) -> Seq<Seq<u8>>
    decreases data.len() - start,
{
    let p = next_opening(data, start);
    if start <= p && p + 3 <= data.len() {
        unless_empty(data.subrange(start, code_begin(data, p))) + units_from(data, p + 3)
    } else {
        unless_empty(data.subrange(start, data.len() as int))
    }
}

/// The units of an Annex-B buffer. A buffer of less than five bytes has none.
pub open spec fn annex_b_units(data: Seq<u8>) -> Seq<Seq<u8>> {
    let p = next_opening(data, 0);
    if data.len() < 5 || p >= data.len() {
        Seq::empty()
    } else {
        units_from(data, p + 3)
    }
}

/// The number in the first four bytes of `data`, most significant byte first.
pub open spec fn length_field(data: Seq<u8>) -> int {
    data[0] * 0x100_0000 + data[1] * 0x1_0000 + data[2] * 0x100 + data[3]
}

/// The units of a length-prefixed buffer; `None` if it is not made of whole,
/// non-empty units.
pub open spec fn length_prefixed_units(data: Seq<u8>) -> Option<Seq<Seq<u8>>>
    decreases data.len(),
{
    if data.len() == 0 {
        Some(Seq::empty())
    } else if data.len() < 4 || length_field(data) == 0 || 4 + length_field(data) > data.len() {
        None
    } else {
        match length_prefixed_units(data.skip(4 + length_field(data))) {
            Some(rest) => Some(seq![data.subrange(4, 4 + length_field(data))] + rest),
            None => None,
        }
    }
}

/// What `length_prefixed_units` gives, with nothing for a malformed buffer.
pub open spec fn length_prefixed_units_or_none(data: Seq<u8>) -> Seq<Seq<u8>> {
    match length_prefixed_units(data) {
        Some(units) => units,
        None => Seq::empty(),
    }
}

/// The units of a buffer in either framing.
pub open spec fn nal_units(data: Seq<u8>) -> Seq<Seq<u8>> {
    if has_start_code(data) {
        annex_b_units(data)
    } else {
        length_prefixed_units_or_none(data)
    }
}

proof fn lemma_opening_bounds(data: Seq<u8>, from: int)
    requires
        from <= data.len(),
    ensures
        from <= next_opening(data, from) <= data.len(),
        forall|q: int| from <= q < next_opening(data, from) ==> !opens_unit(data, q),
        next_opening(data, from) < data.len() ==> opens_unit(data, next_opening(data, from)),
    decreases data.len() - from,
{
    if from < data.len() && !opens_unit(data, from) {
        lemma_opening_bounds(data, from + 1);
    }
}

/// `next_opening` is the first opening: no other position is both an opening (or
/// the end) and free of openings before it.
proof fn lemma_first_opening(data: Seq<u8>, from: int, p: int)
    requires
        from <= p <= data.len(),
        forall|q: int| from <= q < p ==> !opens_unit(data, q),
        p < data.len() ==> opens_unit(data, p),
    ensures
        next_opening(data, from) == p,
{
    lemma_opening_bounds(data, from);
    let n = next_opening(data, from);
    if n < p {
        assert(!opens_unit(data, n));
    }
    if p < n {
        assert(!opens_unit(data, p));
    }
}

proof fn lemma_units_view_push(units: Seq<Vec<u8>>, unit: Vec<u8>)
    ensures
        units_view(units.push(unit)) == units_view(units) + seq![unit@],
{
    assert(units_view(units.push(unit)) =~= units_view(units) + seq![unit@]);
}

/// Cuts a buffer into its NAL units.
pub fn extract_nal_units(data: &[u8]) -> (units: Vec<Vec<u8>>)
    ensures
        units_view(units@) == nal_units(data@),
{
    if has_annex_b_start_code(data) {
        return extract_annex_b_nal_units(data);
    }
    extract_length_prefixed_nal_units(data)
}

/// Whether the buffer holds a start code.
pub fn has_annex_b_start_code(data: &[u8]) -> (found: bool)
    ensures
        found == has_start_code(data@),
{
    let mut i: usize = 0;
    while i < data.len() && data.len() - i >= 3
        invariant
            i <= data@.len(),
            forall|p: int| 0 <= p < i ==> !start_code_at(data@, p),
        decreases data@.len() - i,
    {
        if data[i] == 0x00 && data[i + 1] == 0x00 && data[i + 2] == 0x01 {
            assert(start_code_at(data@, i as int));
            return true;
        }
        i += 1;
    }
    false
}

/// Cuts an Annex-B buffer into its units.
pub fn extract_annex_b_nal_units(data: &[u8]) -> (units: Vec<Vec<u8>>)
    ensures
        units_view(units@) == annex_b_units(data@),
{
    let mut units: Vec<Vec<u8>> = Vec::new();
    assert(units_view(units@) =~= Seq::<Seq<u8>>::empty());
    if data.len() < 5 {
        return units;
    }
    let mut start_idx: Option<usize> = None;
    let mut i: usize = 0;
    while i < data.len() - 3
        invariant
            5 <= data@.len(),
            i <= data@.len() - 3,
            start_idx is None ==> units_view(units@) == Seq::<Seq<u8>>::empty(),
            start_idx is None ==> forall|p: int| #[trigger]
                opens_unit(data@, p) ==> code_begin(data@, p) >= i,
            start_idx matches Some(start) ==> {
                &&& 3 <= start <= data@.len()
                &&& opens_unit(data@, start - 3)
                &&& code_begin(data@, start - 3) < i
                &&& forall|p: int|
                    start <= p && #[trigger] opens_unit(data@, p) ==> code_begin(data@, p) >= i
                &&& units_view(units@) + units_from(data@, start as int) == annex_b_units(data@)
            },
        decreases data@.len() - i,
    {
        let four: bool = data[i] == 0x00 && data[i + 1] == 0x00 && data[i + 2] == 0x00 && data[i + 3]
            == 0x01;
        let three: bool = data[i] == 0x00 && data[i + 1] == 0x00 && data[i + 2] == 0x01;
        if four || three {
            let ghost p: int = if four { i + 1 } else { i as int };
            assert(opens_unit(data@, p));
            let next: usize = if four { i + 4 } else { i + 3 };
            let ghost units_before = units@;
            if let Some(start) = start_idx {
                if start < i {
                    units.push(slice_to_vec(slice_subrange(data, start, i)));
                    proof {
                        lemma_units_view_push(units_before, units@.last());
                        assert(units@ =~= units_before.push(units@.last()));
                    }
                }
            }
            proof {
                match start_idx {
                    None => {
                        assert forall|q: int| 0 <= q < p implies !opens_unit(data@, q) by {
                            if opens_unit(data@, q) {
                                assert(code_begin(data@, q) >= i);
                            }
                        }
                        lemma_first_opening(data@, 0, p);
                        assert(units_view(units@) + units_from(data@, p + 3) =~= units_from(
                            data@,
                            p + 3,
                        ));
                    },
                    Some(start) => {
                        if start <= p {
                            assert(start <= i) by {
                                assert(data@[start - 1] == 1);
                            }
                            assert(code_begin(data@, p) == i);
                            assert forall|q: int| start <= q < p implies !opens_unit(data@, q) by {
                                if opens_unit(data@, q) {
                                    assert(code_begin(data@, q) >= i);
                                }
                            }
                            lemma_first_opening(data@, start as int, p);
                            assert(units_view(units@) =~= units_view(units_before) + unless_empty(
                                data@.subrange(start as int, i as int),
                            ));
                            assert(units_view(units@) + units_from(data@, p + 3) =~= units_view(
                                units_before,
                            ) + units_from(data@, start as int));
                        } else {
                            assert(data@[start - 1] == 1);
                            assert(start == next);
                            assert(units@ == units_before);
                        }
                    },
                }
            }
            start_idx = Some(next);
            assert forall|q: int| next <= q && #[trigger] opens_unit(data@, q) implies code_begin(
                data@,
                q,
            ) >= i + 1 by {}
        } else {
            assert forall|q: int| #[trigger] opens_unit(data@, q) && code_begin(data@, q)
                >= i implies code_begin(data@, q) >= i + 1 by {
                if code_begin(data@, q) == i {
                    assert(q == i || q == i + 1);
                }
            }
        }
        i += 1;
    }
    assert forall|q: int| #[trigger] opens_unit(data@, q) implies code_begin(data@, q) < i by {
        if code_begin(data@, q) >= i {
            assert(q == i);
        }
    }
    match start_idx {
        None => {
            proof {
                assert forall|q: int| 0 <= q < data@.len() implies !opens_unit(data@, q) by {
                    if opens_unit(data@, q) {
                        assert(code_begin(data@, q) >= i);
                    }
                }
                lemma_first_opening(data@, 0, data@.len() as int);
            }
        },
        Some(start) => {
            proof {
                assert forall|q: int| start <= q < data@.len() implies !opens_unit(data@, q) by {
                    if opens_unit(data@, q) {
                        assert(code_begin(data@, q) >= i);
                    }
                }
                lemma_first_opening(data@, start as int, data@.len() as int);
            }
            let ghost units_before = units@;
            if start < data.len() {
                units.push(slice_to_vec(slice_subrange(data, start, data.len())));
                proof {
                    lemma_units_view_push(units_before, units@.last());
                    assert(units@ =~= units_before.push(units@.last()));
                }
            } else {
                assert(units_view(units@) =~= units_view(units@) + units_from(data@, start as int));
            }
        },
    }
    units
}

/// Cuts a length-prefixed buffer into its units; gives none if the buffer is not
/// made of whole, non-empty units.
pub fn extract_length_prefixed_nal_units(data: &[u8]) -> (units: Vec<Vec<u8>>)
    ensures
        units_view(units@) == length_prefixed_units_or_none(data@),
{
    let mut units: Vec<Vec<u8>> = Vec::new();
    let mut offset: usize = 0;
    assert(units_view(units@) =~= Seq::<Seq<u8>>::empty());
    assert(data@.skip(0) =~= data@);
    proof {
        if let Some(rest) = length_prefixed_units(data@) {
            assert(units_view(units@) + rest =~= rest);
        }
    }
    while data.len() - offset >= 4
        invariant
            offset <= data@.len(),
            length_prefixed_units(data@) == (match length_prefixed_units(data@.skip(offset as int)) {
                Some(rest) => Some(units_view(units@) + rest),
                None => None,
            }),
        decreases data@.len() - offset,
    {
        let ghost rest_data = data@.skip(offset as int);
        let nal_len: u32 = (data[offset] as u32) * 0x100_0000 + (data[offset + 1] as u32) * 0x1_0000
            + (data[offset + 2] as u32) * 0x100 + data[offset + 3] as u32;
        assert(nal_len == length_field(rest_data));
        let nal_len: usize = nal_len as usize;
        offset += 4;
        if nal_len == 0 || nal_len > data.len() - offset {
            return Vec::new();
        }
        let ghost units_before = units@;
        units.push(slice_to_vec(slice_subrange(data, offset, offset + nal_len)));
        offset += nal_len;
        proof {
            let unit = rest_data.subrange(4, 4 + length_field(rest_data));
            assert(units@ =~= units_before.push(units@.last()));
            lemma_units_view_push(units_before, units@.last());
            assert(units@.last()@ =~= unit);
            assert(data@.skip(offset as int) =~= rest_data.skip(4 + length_field(rest_data)));
            if let Some(rest) = length_prefixed_units(data@.skip(offset as int)) {
                assert(units_view(units_before) + (seq![unit] + rest) =~= units_view(units@) + rest);
            }
        }
    }
    if offset == data.len() {
        assert(units_view(units@) + Seq::<Seq<u8>>::empty() =~= units_view(units@));
        units
    } else {
        Vec::new()
    }
}

/// The number of zero bytes that `data` starts with.
pub open spec fn leading_zeros(data: Seq<u8>) -> int
    decreases data.len(),
{
    if data.len() == 0 || data[0] != 0 {
        0
    } else {
        1 + leading_zeros(data.skip(1))
    }
}

/// Where the header byte of a unit stands: behind its leading zeros and one byte
/// `01` after them, if any.
pub open spec fn header_position(data: Seq<u8>) -> int {
    let zeros = leading_zeros(data);
    if zeros < data.len() && data[zeros] == 1 {
        zeros + 1
    } else {
        zeros
    }
}

/// The type of a unit: the low five bits of its header byte; `None` if there is no
/// header byte.
pub open spec fn nal_type(data: Seq<u8>) -> Option<u8> {
    if header_position(data) < data.len() {
        Some(data[header_position(data)] % 32)
    } else {
        None
    }
}

proof fn lemma_zeros(data: Seq<u8>, n: int)
    requires
        0 <= n <= data.len(),
        forall|k: int| 0 <= k < n ==> data[k] == 0,
        n < data.len() ==> data[n] != 0,
    ensures
        leading_zeros(data) == n,
    decreases data.len(),
{
    if n > 0 {
        assert(data[0] == 0);
        assert forall|k: int| 0 <= k < n - 1 implies data.skip(1)[k] == 0 by {
            assert(data[k + 1] == 0);
        }
        lemma_zeros(data.skip(1), n - 1);
    }
}

proof fn lemma_zeros_bounds(data: Seq<u8>)
    ensures
        0 <= leading_zeros(data) <= data.len(),
        forall|k: int| 0 <= k < leading_zeros(data) ==> data[k] == 0,
        leading_zeros(data) < data.len() ==> data[leading_zeros(data)] != 0,
    decreases data.len(),
{
    if data.len() > 0 && data[0] == 0 {
        lemma_zeros_bounds(data.skip(1));
        assert forall|k: int| 0 <= k < leading_zeros(data) implies data[k] == 0 by {
            if k > 0 {
                assert(data.skip(1)[k - 1] == data[k]);
            }
        }
    }
}

/// Reads the type of a NAL unit, with or without its start code.
pub fn get_nal_type(data: &[u8]) -> (kind: Option<u8>)
    ensures
        kind == nal_type(data@),
{
    if data.is_empty() {
        return None;
    }
    let mut i: usize = 0;
    while i < data.len() && data[i] == 0x00
        invariant
            i <= data@.len(),
            forall|k: int| 0 <= k < i ==> data@[k] == 0,
        ensures
            i <= data@.len(),
            forall|k: int| 0 <= k < i ==> data@[k] == 0,
            i < data@.len() ==> data@[i as int] != 0,
        decreases data@.len() - i,
    {
        i += 1;
    }
    proof {
        lemma_zeros(data@, i as int);
    }
    if i < data.len() && data[i] == 0x01 {
        i += 1;
    }
    if i < data.len() {
        let header: u8 = data[i];
        assert(header & 0x1F == header % 32) by (bit_vector);
        Some(header & 0x1F)
    } else {
        None
    }
}


/// The four-byte start code.
pub open spec fn start_code() -> Seq<u8> {
    seq![0u8, 0u8, 0u8, 1u8]
}

/// The units one after the other, each behind a four-byte start code.
pub open spec fn annex_b_stream(units: Seq<Seq<u8>>) -> Seq<u8>
    decreases units.len(),
{
    if units.len() == 0 {
        Seq::empty()
    } else {
        start_code() + units[0] + annex_b_stream(units.skip(1))
    }
}

/// `n` in four bytes, most significant byte first.
#[verifier::opaque]
pub open spec fn length_bytes(n: int) -> Seq<u8> {
    seq![
        (n / 0x100_0000 % 0x100) as u8,
        (n / 0x1_0000 % 0x100) as u8,
        (n / 0x100 % 0x100) as u8,
        (n % 0x100) as u8,
    ]
}

/// The units one after the other, each behind its length.
pub open spec fn length_prefixed_stream(units: Seq<Seq<u8>>) -> Seq<u8>
    decreases units.len(),
{
    if units.len() == 0 {
        Seq::empty()
    } else {
        length_bytes(units[0].len() as int) + units[0] + length_prefixed_stream(units.skip(1))
    }
}

/// The unit is not empty, and nothing in it is taken for the start code of another unit:
/// there is no start code in it or, in the last unit of a buffer, none but a three-byte
/// one at its end.
pub open spec fn stays_whole(unit: Seq<u8>, is_last: bool) -> bool {
    unit.len() > 0 && if is_last {
        forall|p: int| !opens_unit(unit, p)
    } else {
        !has_start_code(unit)
    }
}

/// Every unit stays whole in an Annex-B buffer.
pub open spec fn fit_for_annex_b(units: Seq<Seq<u8>>) -> bool {
    forall|k: int|
        0 <= k < units.len() ==> stays_whole(#[trigger] units[k], k == units.len() - 1)
}

/// Every unit is non-empty and its length fits in four bytes.
pub open spec fn fit_for_length_prefix(units: Seq<Seq<u8>>) -> bool {
    forall|k: int| 0 <= k < units.len() ==> 0 < (#[trigger] units[k]).len() < 0x1_0000_0000
}

proof fn lemma_opening_between(data: Seq<u8>, start: int, unit: Seq<u8>, rest: Seq<u8>)
    requires
        0 <= start,
        data.len() == start + unit.len() + 4 + rest.len(),
        data.skip(start) == unit + (start_code() + rest),
        !has_start_code(unit),
    ensures
        next_opening(data, start) == start + unit.len() + 1,
        code_begin(data, start + unit.len() + 1) == start + unit.len(),
        data.subrange(start, start + unit.len()) == unit,
{
    let tail = unit + (start_code() + rest);
    assert forall|k: int| 0 <= k < tail.len() implies data[start + k] == tail[k] by {
        assert(data.skip(start)[k] == data[start + k]);
    }
    let p = start + unit.len() + 1;
    assert(data[p - 1] == tail[unit.len() as int]);
    assert(data[p] == tail[unit.len() as int + 1]);
    assert(data[p + 1] == tail[unit.len() as int + 2]);
    assert(data[p + 2] == tail[unit.len() as int + 3]);
    assert(opens_unit(data, p));
    assert forall|q: int| start <= q < p implies !opens_unit(data, q) by {
        if start_code_at(data, q) {
            let k = q - start;
            if k + 3 <= unit.len() {
                assert(data[start + k] == tail[k]);
                assert(data[start + (k + 1)] == tail[k + 1]);
                assert(data[start + (k + 2)] == tail[k + 2]);
                assert(start_code_at(unit, k));
            } else {
                assert(data[start + (k + 2)] == tail[k + 2]);
                assert(tail[k + 2] == start_code()[k + 2 - unit.len()]);
            }
        }
    }
    lemma_first_opening(data, start, p);
    assert(data.subrange(start, start + unit.len()) =~= unit) by {
        assert forall|k: int| 0 <= k < unit.len() implies data[start + k] == unit[k] by {
            assert(data[start + k] == tail[k]);
        }
    }
}

proof fn lemma_units_from_stream(data: Seq<u8>, start: int, units: Seq<Seq<u8>>)
    requires
        1 <= start <= data.len(),
        data[start - 1] == 1,
        units.len() > 0,
        fit_for_annex_b(units),
        data.skip(start) == units[0] + annex_b_stream(units.skip(1)),
    ensures
        units_from(data, start) == units,
    decreases units.len(),
{
    let unit = units[0];
    let rest = units.skip(1);
    assert(stays_whole(unit, rest.len() == 0));
    if rest.len() == 0 {
        assert(data.skip(start) =~= unit);
        assert forall|q: int| start <= q < data.len() implies !opens_unit(data, q) by {
            if opens_unit(data, q) {
                assert(data.skip(start)[q - start] == data[q]);
                assert(data.skip(start)[q - start + 1] == data[q + 1]);
                assert(data.skip(start)[q - start + 2] == data[q + 2]);
                if q > start {
                    assert(data.skip(start)[q - start - 1] == data[q - 1]);
                }
                assert(opens_unit(unit, q - start));
            }
        }
        lemma_first_opening(data, start, data.len() as int);
        assert(data.subrange(start, data.len() as int) =~= unit);
        assert(units =~= seq![unit]);
    } else {
        let after = rest[0] + annex_b_stream(rest.skip(1));
        assert(annex_b_stream(rest) =~= start_code() + after);
        assert(data.skip(start).len() == data.len() - start);
        lemma_opening_between(data, start, unit, after);
        let next = start + unit.len() + 4;
        assert(data.skip(next) =~= after) by {
            assert forall|k: int| 0 <= k < after.len() implies data.skip(next)[k] == after[k] by {
                assert(data.skip(start)[unit.len() + 4 + k] == data[next + k]);
                assert((unit + (start_code() + after))[unit.len() + 4 + k] == after[k]);
            }
        }
        assert(data[next - 1] == 1) by {
            assert(data.skip(start)[unit.len() as int + 3] == data[next - 1]);
            assert((unit + (start_code() + after))[unit.len() as int + 3] == 1);
        }
        assert forall|k: int| 0 <= k < rest.len() implies stays_whole(
            #[trigger] rest[k],
            k == rest.len() - 1,
        ) by {
            assert(rest[k] == units[k + 1]);
        }
        lemma_units_from_stream(data, next, rest);
        assert(units =~= seq![unit] + rest);
    }
}

/// Units that stay whole come back, all of them and in order, from a buffer in which each stands behind a start code.
pub proof fn law_annex_b_round_trip(units: Seq<Seq<u8>>)
    requires
        fit_for_annex_b(units),
    ensures
        nal_units(annex_b_stream(units)) == units,
{
    let data = annex_b_stream(units);
    if units.len() == 0 {
        assert(nal_units(data) =~= units);
    } else {
        let after = units[0] + annex_b_stream(units.skip(1));
        assert(data =~= start_code() + after);
        assert(stays_whole(units[0], units.len() == 1));
        assert(data[0] == 0 && data[1] == 0 && data[2] == 0 && data[3] == 1);
        assert(!start_code_at(data, 0));
        assert(start_code_at(data, 1));
        lemma_first_opening(data, 0, 1);
        assert(data.skip(4) =~= after);
        lemma_units_from_stream(data, 4, units);
    }
}

proof fn lemma_length_field(data: Seq<u8>, n: int)
    requires
        0 <= n < 0x1_0000_0000,
        data.len() >= 4,
        data.take(4) == length_bytes(n),
    ensures
        length_field(data) == n,
{
    reveal(length_bytes);
    assert(data.take(4)[0] == data[0]);
    assert(data.take(4)[1] == data[1]);
    assert(data.take(4)[2] == data[2]);
    assert(data.take(4)[3] == data[3]);
}

proof fn lemma_length_prefixed_round_trip(units: Seq<Seq<u8>>)
    requires
        fit_for_length_prefix(units),
    ensures
        length_prefixed_units(length_prefixed_stream(units)) == Some(units),
    decreases units.len(),
{
    let data = length_prefixed_stream(units);
    if units.len() == 0 {
        assert(units =~= Seq::<Seq<u8>>::empty());
    } else {
        let unit = units[0];
        let rest = units.skip(1);
        assert(0 < unit.len() < 0x1_0000_0000);
        assert(length_bytes(unit.len() as int).len() == 4) by {
            reveal(length_bytes);
        }
        assert(data.take(4) =~= length_bytes(unit.len() as int));
        lemma_length_field(data, unit.len() as int);
        assert(data.subrange(4, 4 + unit.len() as int) =~= unit);
        assert(data.skip(4 + unit.len() as int) =~= length_prefixed_stream(rest));
        assert forall|k: int| 0 <= k < rest.len() implies 0 < (#[trigger] rest[k]).len()
            < 0x1_0000_0000 by {
            assert(rest[k] == units[k + 1]);
        }
        lemma_length_prefixed_round_trip(rest);
        assert(units =~= seq![unit] + rest);
    }
}

/// The lengths are start codes themselves, so that the units are the same in both
/// framings: the low three bytes of the first length are one, and the other units have
/// one byte.
pub open spec fn reads_alike(units: Seq<Seq<u8>>) -> bool {
    &&& units.len() > 0
    &&& fit_for_annex_b(units)
    &&& units[0].len() % 0x100_0000 == 1
    &&& forall|k: int| 0 < k < units.len() ==> (#[trigger] units[k]).len() == 1
}

proof fn lemma_one_byte_units(units: Seq<Seq<u8>>)
    requires
        forall|k: int| 0 <= k < units.len() ==> (#[trigger] units[k]).len() == 1,
    ensures
        length_prefixed_stream(units) == annex_b_stream(units),
    decreases units.len(),
{
    if units.len() > 0 {
        let rest = units.skip(1);
        assert forall|k: int| 0 <= k < rest.len() implies (#[trigger] rest[k]).len() == 1 by {
            assert(rest[k] == units[k + 1]);
        }
        lemma_one_byte_units(rest);
        assert(length_bytes(1) =~= start_code()) by {
            reveal(length_bytes);
        }
    }
}

proof fn lemma_reads_alike(units: Seq<Seq<u8>>)
    requires
        fit_for_length_prefix(units),
        reads_alike(units),
    ensures
        nal_units(length_prefixed_stream(units)) == units,
{
    let data = length_prefixed_stream(units);
    let n = units[0].len() as int;
    let rest = units.skip(1);
    let prefix = length_bytes(n);
    assert(prefix.len() == 4 && prefix[1] == 0 && prefix[2] == 0 && prefix[3] == 1) by {
        reveal(length_bytes);
    }
    assert forall|k: int| 0 <= k < rest.len() implies (#[trigger] rest[k]).len() == 1 by {
        assert(rest[k] == units[k + 1]);
    }
    lemma_one_byte_units(rest);
    assert(data =~= prefix + (units[0] + annex_b_stream(rest)));
    assert(stays_whole(units[0], units.len() == 1));
    assert(start_code_at(data, 1));
    assert(!start_code_at(data, 0));
    lemma_first_opening(data, 0, 1);
    assert(data.skip(4) =~= units[0] + annex_b_stream(rest));
    lemma_units_from_stream(data, 4, units);
}

/// Units that are non-empty and shorter than 4 GiB come back, all of them and in
/// order, from a buffer in which each stands behind its length, unless the buffer
/// happens to hold a start code and does not read alike in both framings.
pub proof fn law_length_prefixed_round_trip(units: Seq<Seq<u8>>)
    requires
        fit_for_length_prefix(units),
        !has_start_code(length_prefixed_stream(units)) || reads_alike(units),
    ensures
        nal_units(length_prefixed_stream(units)) == units,
{
    if reads_alike(units) {
        lemma_reads_alike(units);
    } else {
        lemma_length_prefixed_round_trip(units);
    }
}

/// The bytes of a number of four bytes.
proof fn lemma_bytes_of_number(a: int, b: int, c: int, d: int)
    requires
        0 <= a < 0x100,
        0 <= b < 0x100,
        0 <= c < 0x100,
        0 <= d < 0x100,
    ensures
        ({
            let n = a * 0x100_0000 + b * 0x1_0000 + c * 0x100 + d;
            &&& 0 <= n < 0x1_0000_0000
            &&& n / 0x100_0000 % 0x100 == a
            &&& n / 0x1_0000 % 0x100 == b
            &&& n / 0x100 % 0x100 == c
            &&& n % 0x100 == d
        }),
{
    let n = a * 0x100_0000 + b * 0x1_0000 + c * 0x100 + d;
    assert(n / 0x100 == a * 0x1_0000 + b * 0x100 + c && n % 0x100 == d);
    assert(n / 0x1_0000 == a * 0x100 + b);
    assert(n / 0x100_0000 == a);
}

proof fn lemma_length_bytes(data: Seq<u8>)
    requires
        data.len() >= 4,
    ensures
        length_bytes(length_field(data)) == data.take(4),
        0 <= length_field(data) < 0x1_0000_0000,
{
    let n = length_field(data);
    lemma_bytes_of_number(data[0] as int, data[1] as int, data[2] as int, data[3] as int);
    reveal(length_bytes);
    assert(length_bytes(n) =~= data.take(4));
}

/// A length-prefixed buffer that yields units is made of exactly those units: put
/// behind their lengths again they give the buffer back.
pub proof fn law_length_prefixed_units_make_up_the_buffer(data: Seq<u8>)
    requires
        length_prefixed_units(data) is Some,
    ensures
        fit_for_length_prefix(length_prefixed_units(data)->0),
        length_prefixed_stream(length_prefixed_units(data)->0) == data,
    decreases data.len(),
{
    let units = length_prefixed_units(data)->0;
    if data.len() == 0 {
        assert(length_prefixed_stream(units) =~= data);
    } else {
        let n = length_field(data);
        lemma_length_bytes(data);
        let tail = data.skip(4 + n);
        let rest = length_prefixed_units(tail)->0;
        law_length_prefixed_units_make_up_the_buffer(tail);
        assert(units[0] == data.subrange(4, 4 + n));
        assert(units.skip(1) =~= rest);
        assert forall|k: int| 0 <= k < units.len() implies 0 < (#[trigger] units[k]).len()
            < 0x1_0000_0000 by {
            if k > 0 {
                assert(units[k] == rest[k - 1]);
            }
        }
        assert(units[0].len() == n);
        assert(length_prefixed_stream(units) == data.take(4) + data.subrange(4, 4 + n) + tail);
        assert(data =~= data.take(4) + data.subrange(4, 4 + n) + tail);
    }
}

/// `unit` is a non-empty piece of `data` from `start` on that directly follows a start
/// code and holds none itself, but for one that `data` ends with.
pub open spec fn cut_from(data: Seq<u8>, unit: Seq<u8>, start: int) -> bool {
    &&& start_code_at(data, start - 3)
    &&& 0 < unit.len() <= data.len() - start
    &&& unit == data.subrange(start, start + unit.len())
    &&& forall|q: int|
        start <= q && q + 3 <= start + unit.len() && q + 3 < data.len() ==> !start_code_at(data, q)
}

proof fn lemma_unit_is_cut(data: Seq<u8>, start: int, k: int)
    requires
        3 <= start <= data.len(),
        start_code_at(data, start - 3),
        0 <= k < units_from(data, start).len(),
    ensures
        exists|s: int| cut_from(data, units_from(data, start)[k], s),
    decreases data.len() - start,
{
    lemma_opening_bounds(data, start);
    let p = next_opening(data, start);
    let end = if p < data.len() { code_begin(data, p) } else { data.len() as int };
    let head = data.subrange(start, end);
    assert(data[start - 1] == 1);
    if k == 0 && head.len() > 0 {
        assert forall|q: int| start <= q && q + 3 <= end && q + 3 < data.len()
            implies !start_code_at(data, q) by {
            if start_code_at(data, q) {
                assert(opens_unit(data, q));
            }
        }
        assert(units_from(data, start)[0] == head);
        assert(cut_from(data, head, start));
    } else {
        let skipped = unless_empty(head).len() as int;
        lemma_unit_is_cut(data, p + 3, k - skipped);
        assert(units_from(data, start)[k] == units_from(data, p + 3)[k - skipped]);
    }
}

/// Every unit of an Annex-B buffer is a non-empty piece of it that directly follows a
/// start code and holds none itself, but for one that the whole buffer ends with.
pub proof fn law_annex_b_units_follow_start_codes(data: Seq<u8>, k: int)
    requires
        0 <= k < annex_b_units(data).len(),
    ensures
        exists|start: int| cut_from(data, annex_b_units(data)[k], start),
{
    lemma_opening_bounds(data, 0);
    lemma_unit_is_cut(data, next_opening(data, 0) + 3, k);
}

/// No unit is ever empty, whatever the framing.
pub proof fn law_units_are_not_empty(data: Seq<u8>, k: int)
    requires
        0 <= k < nal_units(data).len(),
    ensures
        nal_units(data)[k].len() > 0,
{
    if has_start_code(data) {
        law_annex_b_units_follow_start_codes(data, k);
    } else {
        law_length_prefixed_units_make_up_the_buffer(data);
    }
}

/// A unit's type is the same with a start code in front of it, of four bytes or of
/// three, whatever the unit holds: the low five bits of its first byte.
pub proof fn law_nal_type_behind_start_code(unit: Seq<u8>)
    requires
        unit.len() > 0,
    ensures
        nal_type(start_code() + unit) == Some((unit[0] % 32) as u8),
        nal_type(seq![0u8, 0u8, 1u8] + unit) == Some((unit[0] % 32) as u8),
        unit[0] > 1 ==> nal_type(unit) == Some((unit[0] % 32) as u8),
{
    lemma_zeros(start_code() + unit, 3);
    lemma_zeros(seq![0u8, 0u8, 1u8] + unit, 2);
    if unit[0] > 1 {
        lemma_zeros(unit, 0);
    }
}

/// A unit has no type exactly if it is made of zeros, with or without one byte `01`
/// behind them.
pub proof fn law_untyped_units(unit: Seq<u8>)
    ensures
        nal_type(unit) is None <==> forall|k: int|
            0 <= k < unit.len() ==> unit[k] == 0 || (k == unit.len() - 1 && unit[k] == 1),
{
    lemma_zeros_bounds(unit);
    let zeros = leading_zeros(unit);
    if nal_type(unit) is Some {
        if zeros < unit.len() - 1 {
            assert(unit[zeros] != 0);
        }
    }
}

/// An empty buffer holds no units.
pub proof fn law_empty_buffer_has_no_units()
    ensures
        nal_units(Seq::empty()) == Seq::<Seq<u8>>::empty(),
{
}

/// Every unit is seen as its bytes, in order.
pub proof fn law_units_are_seen_as_their_bytes(units: Seq<Vec<u8>>, i: int)
    requires
        0 <= i < units.len(),
    ensures
        units_view(units).len() == units.len(),
        units_view(units)[i] == units[i]@,
{
}

/// `00 00 01` stands nowhere in the bytes.
pub open spec fn free_of_codes(bytes: Seq<u8>) -> bool {
    forall|p: int|
        0 <= p && p + 3 <= bytes.len() ==> !(#[trigger] bytes[p] == 0 && bytes[p + 1] == 0
            && bytes[p + 2] == 1)
}

proof fn lemma_free_of_codes(bytes: Seq<u8>)
    ensures
        free_of_codes(bytes) <==> !has_start_code(bytes),
{
    if !free_of_codes(bytes) {
        let p = choose|p: int|
            0 <= p && p + 3 <= bytes.len() && (#[trigger] bytes[p] == 0 && bytes[p + 1] == 0
                && bytes[p + 2] == 1);
        assert(start_code_at(bytes, p));
    }
    if has_start_code(bytes) {
        let p = choose|p: int| start_code_at(bytes, p);
        assert(bytes[p] == 0);
    }
}

pub(crate) proof fn lemma_part_is_free_of_codes(bytes: Seq<u8>, from: int, to: int)
    requires
        free_of_codes(bytes),
        0 <= from <= to <= bytes.len(),
    ensures
        free_of_codes(bytes.subrange(from, to)),
{
    let part = bytes.subrange(from, to);
    assert forall|p: int| 0 <= p && p + 3 <= part.len() implies !(#[trigger] part[p] == 0 && part[p
        + 1] == 0 && part[p + 2] == 1) by {
        assert(bytes[from + p] == part[p]);
        assert(bytes[from + p + 1] == part[p + 1]);
        assert(bytes[from + p + 2] == part[p + 2]);
    }
}

/// A start code of four bytes or of three.
pub open spec fn code_of(four: bool) -> Seq<u8> {
    if four {
        seq![0u8, 0u8, 0u8, 1u8]
    } else {
        seq![0u8, 0u8, 1u8]
    }
}

/// The units one after the other, each behind a start code of either form.
pub open spec fn mixed_stream(fours: Seq<bool>, units: Seq<Seq<u8>>) -> Seq<u8>
    decreases units.len(),
{
    if units.len() == 0 {
        Seq::empty()
    } else {
        code_of(fours[0]) + units[0] + mixed_stream(fours.skip(1), units.skip(1))
    }
}

/// The units that are not empty.
pub open spec fn without_empty_units(units: Seq<Seq<u8>>) -> Seq<Seq<u8>>
    decreases units.len(),
{
    if units.len() == 0 {
        Seq::empty()
    } else if units[0].len() == 0 {
        without_empty_units(units.skip(1))
    } else {
        seq![units[0]] + without_empty_units(units.skip(1))
    }
}

/// A buffer may end with the unit, behind a start code of the given form. A three-byte start
/// code at the end of a buffer opens no unit: it may stand at the end of the unit, but not
/// in front of nothing.
pub open spec fn may_end_a_buffer(four: bool, unit: Seq<u8>) -> bool {
    &&& unit.len() > 0 || four
    &&& unit.len() > 0 ==> free_of_codes(unit.drop_last())
    &&& unit.len() >= 4 ==> !(unit[unit.len() - 4] == 0 && unit[unit.len() - 3] == 0
        && unit[unit.len() - 2] == 0 && unit[unit.len() - 1] == 1)
}

/// No unit holds a start code but the last one at its end, and no three-byte start code has
/// a unit in front of it that ends in zero, which would make a four-byte one of it.
pub open spec fn fit_for_codes(fours: Seq<bool>, units: Seq<Seq<u8>>) -> bool {
    &&& fours.len() == units.len()
    &&& units.len() > 0 ==> may_end_a_buffer(fours.last(), units.last())
    &&& forall|k: int| 0 <= k < units.len() - 1 ==> free_of_codes(#[trigger] units[k])
    &&& forall|k: int|
        0 <= k < units.len() - 1 && !fours[k + 1] && (#[trigger] units[k]).len() > 0
            ==> units[k].last() != 0
}

proof fn lemma_fit_for_codes_rest(fours: Seq<bool>, units: Seq<Seq<u8>>)
    requires
        fit_for_codes(fours, units),
        units.len() > 0,
    ensures
        fit_for_codes(fours.skip(1), units.skip(1)),
{
    let rest = units.skip(1);
    assert forall|k: int| 0 <= k < rest.len() - 1 implies free_of_codes(#[trigger] rest[k]) by {
        assert(rest[k] == units[k + 1]);
    }
    assert forall|k: int|
        0 <= k < rest.len() - 1 && !fours.skip(1)[k + 1] && (#[trigger] rest[k]).len()
            > 0 implies rest[k].last() != 0 by {
        assert(rest[k] == units[k + 1]);
        assert(fours.skip(1)[k + 1] == fours[k + 2]);
    }
    if rest.len() > 0 {
        assert(rest.last() == units.last());
        assert(fours.skip(1).last() == fours.last());
    }
}

proof fn lemma_mixed_stream_len(fours: Seq<bool>, units: Seq<Seq<u8>>)
    requires
        units.len() > 0,
    ensures
        mixed_stream(fours, units).len() >= 3 + units.last().len(),
    decreases units.len(),
{
    if units.len() > 1 {
        lemma_mixed_stream_len(fours.skip(1), units.skip(1));
        assert(units.skip(1).last() == units.last());
    }
}

proof fn lemma_next_code(data: Seq<u8>, start: int, unit: Seq<u8>, four: bool, rest: Seq<u8>)
    requires
        0 <= start,
        data.len() == start + unit.len() + code_of(four).len() + rest.len(),
        data.skip(start) == unit + (code_of(four) + rest),
        !has_start_code(unit),
        rest.len() > 0 || four,
        !four && unit.len() > 0 ==> unit.last() != 0,
        !four && unit.len() == 0 && start > 0 ==> data[start - 1] != 0,
    ensures
        ({
            let p = start + unit.len() + (if four {
                1int
            } else {
                0
            });
            &&& opens_unit(data, p)
            &&& next_opening(data, start) == p
            &&& code_begin(data, p) == start + unit.len()
        }),
        data.subrange(start, start + unit.len()) == unit,
        data[start + unit.len() + code_of(four).len() - 1] == 1,
        data.skip(start + unit.len() + code_of(four).len()) == rest,
{
    let code = code_of(four);
    let tail = unit + (code + rest);
    let len = unit.len() as int;
    assert forall|k: int| 0 <= k < tail.len() implies data[start + k] == tail[k] by {
        assert(data.skip(start)[k] == data[start + k]);
    }
    assert forall|k: int| 0 <= k < code.len() implies data[start + len + k] == code[k] by {
        assert(data[start + (len + k)] == tail[len + k]);
    }
    let p = start + len + (if four {
        1int
    } else {
        0
    });
    assert(data[start + len + 0] == code[0]);
    assert(data[start + len + 1] == code[1]);
    assert(data[start + len + 2] == code[2]);
    if four {
        assert(data[start + len + 3] == code[3]);
    }
    assert(opens_unit(data, p));
    if !four && len > 0 {
        assert(data[start + (len - 1)] == tail[len - 1]);
        assert(data[p - 1] == unit.last());
    }
    assert forall|q: int| start <= q < p implies !opens_unit(data, q) by {
        if start_code_at(data, q) {
            let k = q - start;
            if k + 3 <= len {
                assert(data[start + k] == tail[k]);
                assert(data[start + (k + 1)] == tail[k + 1]);
                assert(data[start + (k + 2)] == tail[k + 2]);
                assert(start_code_at(unit, k));
            } else {
                assert(data[start + len + (k + 2 - len)] == code[k + 2 - len]);
            }
        }
    }
    lemma_first_opening(data, start, p);
    assert(data.subrange(start, start + len) =~= unit) by {
        assert forall|k: int| 0 <= k < len implies data[start + k] == unit[k] by {
            assert(data[start + k] == tail[k]);
        }
    }
    let next = start + len + code.len();
    assert(data.skip(next) =~= rest) by {
        assert forall|k: int| 0 <= k < rest.len() implies data.skip(next)[k] == rest[k] by {
            assert(data[start + (len + code.len() + k)] == tail[len + code.len() + k]);
        }
    }
}

proof fn lemma_last_of_mixed(data: Seq<u8>, start: int, four: bool, unit: Seq<u8>)
    requires
        1 <= start <= data.len(),
        data[start - 1] == 1,
        data.skip(start) == unit,
        may_end_a_buffer(four, unit),
    ensures
        next_opening(data, start) == data.len(),
{
    assert forall|q: int| start <= q < data.len() implies !opens_unit(data, q) by {
        if start_code_at(data, q) {
            let k = q - start;
            assert(data.skip(start)[k] == data[q]);
            assert(data.skip(start)[k + 1] == data[q + 1]);
            assert(data.skip(start)[k + 2] == data[q + 2]);
            let front = unit.drop_last();
            if k + 3 <= front.len() {
                assert(front[k] == 0 && front[k + 1] == 0 && front[k + 2] == 1);
            } else if k > 0 {
                assert(data.skip(start)[k - 1] == data[q - 1]);
            }
        }
    }
    lemma_first_opening(data, start, data.len() as int);
}

proof fn lemma_units_from_mixed(data: Seq<u8>, start: int, fours: Seq<bool>, units: Seq<Seq<u8>>)
    requires
        1 <= start <= data.len(),
        data[start - 1] == 1,
        units.len() > 0,
        fit_for_codes(fours, units),
        data.skip(start) == units[0] + mixed_stream(fours.skip(1), units.skip(1)),
    ensures
        units_from(data, start) == without_empty_units(units),
    decreases units.len(),
{
    let unit = units[0];
    let rest = units.skip(1);
    if rest.len() == 0 {
        assert(units.last() == unit);
        assert(data.skip(start) =~= unit);
        lemma_last_of_mixed(data, start, fours[0], unit);
        assert(data.subrange(start, data.len() as int) =~= unit);
        assert(without_empty_units(rest) =~= Seq::empty());
        assert(without_empty_units(units) =~= unless_empty(unit));
    } else {
        let four = fours[1];
        assert(free_of_codes(unit));
        lemma_free_of_codes(unit);
        assert(fours.skip(1)[0] == four);
        let after = rest[0] + mixed_stream(fours.skip(1).skip(1), rest.skip(1));
        assert(mixed_stream(fours.skip(1), rest) =~= code_of(four) + after);
        assert(after.len() > 0 || four) by {
            if rest.len() > 1 {
                lemma_mixed_stream_len(fours.skip(1).skip(1), rest.skip(1));
            } else {
                assert(rest[0] == units.last());
                assert(four == fours.last());
            }
        }
        assert(data.skip(start).len() == data.len() - start);
        assert(data.skip(start) =~= unit + (code_of(four) + after));
        lemma_next_code(data, start, unit, four, after);
        let next = start + unit.len() + code_of(four).len();
        lemma_fit_for_codes_rest(fours, units);
        lemma_units_from_mixed(data, next, fours.skip(1), rest);
        assert(units_from(data, start) == unless_empty(unit) + units_from(data, next));
        assert(without_empty_units(units) =~= unless_empty(unit) + without_empty_units(rest));
    }
}

/// Units behind start codes of three bytes and of four, in any mixture, come back, all of
/// them but the empty ones and in order, whatever stands in front of the first start code.
pub proof fn law_start_codes_of_both_forms(
    front: Seq<u8>,
    fours: Seq<bool>,
    units: Seq<Seq<u8>>,
)
    requires
        units.len() > 0,
        fit_for_codes(fours, units),
        free_of_codes(front),
        !fours[0] && front.len() > 0 ==> front.last() != 0,
        (front + mixed_stream(fours, units)).len() >= 5,
    ensures
        nal_units(front + mixed_stream(fours, units)) == without_empty_units(units),
{
    let data = front + mixed_stream(fours, units);
    let four = fours[0];
    let after = units[0] + mixed_stream(fours.skip(1), units.skip(1));
    let start = (front.len() + code_of(four).len()) as int;
    let p = front.len() + (if four {
        1int
    } else {
        0
    });
    assert(after.len() > 0 || four) by {
        if units.len() > 1 {
            lemma_mixed_stream_len(fours.skip(1), units.skip(1));
        } else {
            assert(units[0] == units.last());
        }
    }
    assert(start_code_at(data, p) && next_opening(data, 0) == p && p + 3 == start && data[start - 1]
        == 1 && data.skip(start) == after) by {
        assert(data =~= front + (code_of(four) + after));
        assert(data.skip(0) =~= data);
        lemma_free_of_codes(front);
        lemma_next_code(data, 0, front, four, after);
    }
    lemma_units_from_mixed(data, start, fours, units);
}

/// A buffer of less than five bytes that holds a start code has no units.
pub proof fn law_short_buffers_have_no_units(data: Seq<u8>)
    requires
        data.len() < 5,
        !free_of_codes(data),
    ensures
        nal_units(data) == Seq::<Seq<u8>>::empty(),
{
    lemma_free_of_codes(data);
}

/// A start code that ends a buffer and is the only one in it opens no unit if it has three
/// bytes.
pub proof fn law_code_at_the_end_opens_no_unit(data: Seq<u8>)
    requires
        data.len() >= 3,
        data[data.len() - 3] == 0 && data[data.len() - 2] == 0 && data[data.len() - 1] == 1,
        data.len() >= 4 ==> data[data.len() - 4] != 0,
        free_of_codes(data.drop_last()),
    ensures
        nal_units(data) == Seq::<Seq<u8>>::empty(),
{
    assert(start_code_at(data, data.len() - 3));
    let front = data.drop_last();
    assert forall|q: int| 0 <= q < data.len() implies !opens_unit(data, q) by {
        if start_code_at(data, q) && q + 3 <= front.len() {
            assert(front[q] == 0 && front[q + 1] == 0 && front[q + 2] == 1);
        }
    }
    lemma_first_opening(data, 0, data.len() as int);
}

/// `00 00 01` anywhere in a buffer decides its framing.
pub proof fn law_start_codes_decide_the_framing(data: Seq<u8>)
    ensures
        has_start_code(data) <==> !free_of_codes(data),
        !free_of_codes(data) ==> nal_units(data) == annex_b_units(data),
        free_of_codes(data) ==> nal_units(data) == length_prefixed_units_or_none(data),
        free_of_codes(data) ==> annex_b_units(data) == Seq::<Seq<u8>>::empty(),
{
    lemma_free_of_codes(data);
    if free_of_codes(data) {
        assert forall|q: int| 0 <= q < data.len() implies !opens_unit(data, q) by {}
        lemma_first_opening(data, 0, data.len() as int);
    }
}

/// A length-prefixed buffer is read unit by unit. The first four bytes are the length of the
/// first unit, most significant byte first, and the unit follows. Where the length is zero,
/// or more than there is, or the rest of the buffer cannot be read, there are no units at
/// all.
pub proof fn law_length_prefixed_buffer(data: Seq<u8>)
    ensures
        data.len() < 4 ==> length_prefixed_units_or_none(data) == Seq::<Seq<u8>>::empty(),
        data.len() >= 4 ==> {
            let n = data[0] * 16777216 + data[1] * 65536 + data[2] * 256 + data[3];
            let unit = data.subrange(4, 4 + n);
            let rest = data.subrange(4 + n, data.len() as int);
            let units = length_prefixed_units_or_none(data);
            let others = length_prefixed_units_or_none(rest);
            &&& n == 0 || n > data.len() - 4 ==> units == Seq::<Seq<u8>>::empty()
            &&& 0 < n == data.len() - 4 ==> units == seq![unit]
            &&& 0 < n < data.len() - 4 && others.len() > 0 ==> units == seq![unit] + others
            &&& 0 < n < data.len() - 4 && others.len() == 0 ==> units == Seq::<Seq<u8>>::empty()
        },
{
    if data.len() >= 4 {
        let n = length_field(data);
        if 0 < n <= data.len() - 4 {
            let rest = data.subrange(4 + n, data.len() as int);
            assert(data.skip(4 + n) =~= rest);
            if rest.len() == 0 {
                assert(length_prefixed_units(rest) == Some(Seq::<Seq<u8>>::empty()));
                assert(length_prefixed_units_or_none(data) =~= seq![data.subrange(4, 4 + n)]);
            }
        }
    }
}

/// The type of a unit is in the low five bits of the first byte behind its zeros, or of the
/// next one if that byte is `01`. Where there is no such byte, there is no type.
pub proof fn law_nal_type_by_bytes(unit: Seq<u8>, zeros: int)
    requires
        0 <= zeros <= unit.len(),
        forall|k: int| 0 <= k < zeros ==> unit[k] == 0,
        zeros < unit.len() ==> unit[zeros] != 0,
    ensures
        zeros < unit.len() && unit[zeros] != 1 ==> nal_type(unit) == Some(
            (unit[zeros] as int % 32) as u8,
        ),
        zeros + 1 < unit.len() && unit[zeros] == 1 ==> nal_type(unit) == Some(
            (unit[zeros + 1] as int % 32) as u8,
        ),
        zeros == unit.len() ==> nal_type(unit) is None,
        zeros + 1 == unit.len() && unit[zeros] == 1 ==> nal_type(unit) is None,
{
    lemma_zeros(unit, zeros);
}

} // verus!
