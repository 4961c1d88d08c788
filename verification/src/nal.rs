//! Minimal H.265 NAL inspection of 4-byte length-prefixed access units.
//!
//! The RTSP client only reports IDR pictures as random access points for H.265, so streams with
//! open GOPs (CRA keyframes) would never resynchronize. They are classified here.
use vstd::prelude::*;

verus! {

/// Kind of picture an H.265 access unit carries, from its first VCL NAL unit.
#[derive(Clone, Copy, Debug, PartialEq, Eq, Structural)]
pub enum HevcPicture {
    /// IDR / BLA: decodable on its own, nothing after it references earlier pictures.
    ClosedIrap,
    /// CRA: decodable on its own, but following RASL pictures may reference earlier ones.
    Cra,
    /// RASL_N / RASL_R: undecodable when decoding started at the preceding CRA.
    Rasl,
    Other,
}

/// The big-endian number in the first four bytes.
pub open spec fn be32(bytes: Seq<u8>) -> nat {
    (bytes[0] as nat) * 0x1000000 + (bytes[1] as nat) * 0x10000 + (bytes[2] as nat) * 0x100 + (
    bytes[3] as nat)
}

/// The NAL units of an access unit in which each unit follows its length. A unit that is cut
/// short, and whatever follows it, is left out.
pub open spec fn nal_units(au: Seq<u8>) -> Seq<Seq<u8>>
    decreases au.len(),
{
    if au.len() <= 4 || 4 + be32(au) > au.len() {
        Seq::empty()
    } else {
        let end = 4 + be32(au) as int;
        seq![au.subrange(4, end)] + nal_units(au.skip(end))
    }
}

/// The type field of a NAL unit's header byte.
pub open spec fn nal_type(header: u8) -> nat {
    ((header as nat) / 2) % 64
}

/// The picture that a VCL unit of this type belongs to; nothing for the other unit types
/// (parameter sets, SEI, delimiters).
pub open spec fn picture_of_type(kind: nat) -> Option<HevcPicture> {
    if kind == 8 || kind == 9 {
        Some(HevcPicture::Rasl)
    } else if kind == 21 {
        Some(HevcPicture::Cra)
    } else if 16 <= kind <= 23 {
        Some(HevcPicture::ClosedIrap)
    } else if kind <= 31 {
        Some(HevcPicture::Other)
    } else {
        None
    }
}

/// The picture of one NAL unit, if it is a VCL unit.
pub open spec fn picture_of_unit(unit: Seq<u8>) -> Option<HevcPicture> {
    if unit.len() == 0 {
        None
    } else {
        picture_of_type(nal_type(unit[0]))
    }
}

/// The picture of the first VCL unit, or `Other` without one.
pub open spec fn first_picture(units: Seq<Seq<u8>>) -> HevcPicture
    decreases units.len(),
{
    if units.len() == 0 {
        HevcPicture::Other
    } else {
        match picture_of_unit(units[0]) {
            Some(picture) => picture,
            None => first_picture(units.skip(1)),
        }
    }
}

fn classify(header: u8) -> (res: Option<HevcPicture>)
    ensures
        res == picture_of_type(nal_type(header)),
{
    let kind: u8 = (header >> 1) & 0x3f;
    assert(kind == (header / 2) % 64) by (bit_vector)
        requires
            kind == (header >> 1) & 0x3f,
    ;
    if kind == 8 || kind == 9 {
        Some(HevcPicture::Rasl)
    } else if kind == 21 {
        Some(HevcPicture::Cra)
    } else if 16 <= kind && kind <= 23 {
        Some(HevcPicture::ClosedIrap)
    } else if kind <= 31 {
        Some(HevcPicture::Other)
    } else {
        None
    }
}

/// The kind of picture that an access unit carries.
pub fn hevc_picture(au: &[u8]) -> (res: HevcPicture)
    ensures
        res == first_picture(nal_units(au@)),
{
    let mut at: usize = 0;
    assert(au@.skip(0) == au@);
    while au.len() - at > 4
        invariant
            at <= au@.len(),
            first_picture(nal_units(au@)) == first_picture(nal_units(au@.skip(at as int))),
        decreases au@.len() - at,
    {
        let ghost rest = au@.skip(at as int);
        let len: u64 = (au[at] as u64) * 0x1000000 + (au[at + 1] as u64) * 0x10000 + (au[at
            + 2] as u64) * 0x100 + (au[at + 3] as u64);
        assert(len == be32(rest));
        let left: usize = au.len() - at - 4;
        if len > left as u64 {
            return HevcPicture::Other;
        }
        let size: usize = len as usize;
        let ghost unit = rest.subrange(4, 4 + size);
        let ghost units = nal_units(rest);
        assert(units[0] == unit);
        assert(units.skip(1) == nal_units(rest.skip(4 + size)));
        if size > 0 {
            assert(unit[0] == au@[at + 4]);
            if let Some(picture) = classify(au[at + 4]) {
                return picture;
            }
        }
        assert(rest.skip(4 + size) == au@.skip(at + 4 + size));
        at = at + 4 + size;
    }
    HevcPicture::Other
}

/// Four bytes that hold `n`, most significant first.
pub open spec fn be32_bytes(n: nat) -> Seq<u8> {
    seq![
        (n / 0x1000000) as u8,
        ((n / 0x10000) % 0x100) as u8,
        ((n / 0x100) % 0x100) as u8,
        (n % 0x100) as u8,
    ]
}

/// NAL units joined into an access unit, each after its length.
pub open spec fn joined(units: Seq<Seq<u8>>) -> Seq<u8>
    decreases units.len(),
{
    if units.len() == 0 {
        Seq::empty()
    } else {
        be32_bytes(units[0].len()) + units[0] + joined(units.skip(1))
    }
}

/// Splitting an access unit gives back the units it was joined from, whatever stands in them.
pub proof fn lemma_units_of_joined(units: Seq<Seq<u8>>)
    requires
        forall|i: int| 0 <= i < units.len() ==> 0 < #[trigger] units[i].len() <= u32::MAX,
    ensures
        nal_units(joined(units)) == units,
    decreases units.len(),
{
    if units.len() > 0 {
        let first = units[0];
        let n = first.len();
        let prefix = be32_bytes(n);
        let rest = joined(units.skip(1));
        let au = prefix + first + rest;
        assert(n == (n / 0x1000000) * 0x1000000 + ((n / 0x10000) % 0x100) * 0x10000 + ((n / 0x100)
            % 0x100) * 0x100 + n % 0x100);
        assert(be32(au) == n);
        assert(au.subrange(4, 4 + n as int) =~= first);
        assert(au.skip(4 + n as int) =~= rest);
        lemma_units_of_joined(units.skip(1));
        assert(nal_units(au) =~= seq![first] + units.skip(1));
        assert(seq![first] + units.skip(1) =~= units);
    }
}

/// Only what stands up to the first VCL unit decides: anything may follow it.
pub proof fn lemma_first_picture_decides(before: Seq<Seq<u8>>, after: Seq<Seq<u8>>)
    requires
        exists|i: int| 0 <= i < before.len() && picture_of_unit(#[trigger] before[i]) is Some,
    ensures
        first_picture(before + after) == first_picture(before),
    decreases before.len(),
{
    let all = before + after;
    assert(all[0] == before[0]);
    if picture_of_unit(before[0]) is None {
        let i = choose|i: int|
            0 <= i < before.len() && picture_of_unit(#[trigger] before[i]) is Some;
        assert(before.skip(1)[i - 1] == before[i]);
        lemma_first_picture_decides(before.skip(1), after);
        assert(all.skip(1) =~= before.skip(1) + after);
    }
}

/// Whether a NAL unit is of a type: the six bits after the first one of its header.
pub open spec fn has_type(unit: Seq<u8>, kind: int) -> bool {
    unit.len() > 0 && (unit[0] as int / 2) % 64 == kind
}

/// Whether a NAL unit holds no part of a picture: it is empty, or its type is 32 or more
/// (parameter sets, delimiters, supplemental information).
pub open spec fn is_side_data(unit: Seq<u8>) -> bool {
    unit.len() == 0 || (unit[0] as int / 2) % 64 >= 32
}

/// Units without a part of a picture never decide, however many stand in front. The first other
/// unit does, by its type alone: 8 and 9 are leading pictures, 21 is an open keyframe, the others
/// from 16 to 23 are closed ones, and the rest is anything else. What follows it does not matter.
pub proof fn lemma_first_picture_unit_decides(
    before: Seq<Seq<u8>>,
    unit: Seq<u8>,
    after: Seq<Seq<u8>>,
)
    requires
        forall|i: int| 0 <= i < before.len() ==> is_side_data(#[trigger] before[i]),
        unit.len() > 0,
        (unit[0] as int / 2) % 64 < 32,
    ensures
        ({
            let kind = (unit[0] as int / 2) % 64;
            let picture = first_picture(before + seq![unit] + after);
            &&& picture == HevcPicture::Rasl <==> kind == 8 || kind == 9
            &&& picture == HevcPicture::Cra <==> kind == 21
            &&& picture == HevcPicture::ClosedIrap <==> (kind == 16 || kind == 17 || kind == 18
                || kind == 19 || kind == 20 || kind == 22 || kind == 23)
        }),
    decreases before.len(),
{
    let all = before + seq![unit] + after;
    if before.len() == 0 {
        assert(all[0] == unit);
    } else {
        assert(all[0] == before[0]);
        assert(is_side_data(before[0]));
        let fewer = before.skip(1);
        assert forall|i: int| 0 <= i < fewer.len() implies is_side_data(#[trigger] fewer[i]) by {
            assert(fewer[i] == before[i + 1]);
        }
        assert(all.skip(1) =~= fewer + seq![unit] + after);
        lemma_first_picture_unit_decides(fewer, unit, after);
    }
}

/// An access unit without any part of a picture is no keyframe.
pub proof fn lemma_side_data_is_no_picture(units: Seq<Seq<u8>>)
    requires
        forall|i: int| 0 <= i < units.len() ==> is_side_data(#[trigger] units[i]),
    ensures
        first_picture(units) == HevcPicture::Other,
    decreases units.len(),
{
    if units.len() > 0 {
        assert(is_side_data(units[0]));
        let fewer = units.skip(1);
        assert forall|i: int| 0 <= i < fewer.len() implies is_side_data(#[trigger] fewer[i]) by {
            assert(fewer[i] == units[i + 1]);
        }
        lemma_side_data_is_no_picture(fewer);
    }
}

/// A keyframe is found behind the parameter sets that are sent with it: of an access unit that
/// was joined from side data, a unit of type 21 and anything else, the picture is an open
/// keyframe; with a unit of type 19 or 20 it is a closed one.
pub proof fn lemma_keyframe_behind_parameter_sets(
    before: Seq<Seq<u8>>,
    unit: Seq<u8>,
    after: Seq<Seq<u8>>,
)
    requires
        forall|i: int| 0 <= i < before.len() ==> is_side_data(#[trigger] before[i]),
        forall|i: int| 0 <= i < before.len() ==> 0 < #[trigger] before[i].len() <= u32::MAX,
        forall|i: int| 0 <= i < after.len() ==> 0 < #[trigger] after[i].len() <= u32::MAX,
        unit.len() <= u32::MAX,
    ensures
        has_type(unit, 21) ==> first_picture(nal_units(joined(before + seq![unit] + after)))
            == HevcPicture::Cra,
        has_type(unit, 19) || has_type(unit, 20) ==> first_picture(
            nal_units(joined(before + seq![unit] + after)),
        ) == HevcPicture::ClosedIrap,
        has_type(unit, 1) ==> first_picture(nal_units(joined(before + seq![unit] + after)))
            == HevcPicture::Other,
{
    let all = before + seq![unit] + after;
    if has_type(unit, 21) || has_type(unit, 19) || has_type(unit, 20) || has_type(unit, 1) {
        assert forall|i: int| 0 <= i < all.len() implies 0 < #[trigger] all[i].len()
            <= u32::MAX by {
            if i < before.len() {
                assert(all[i] == before[i]);
            } else if i > before.len() {
                assert(all[i] == after[i - before.len() - 1]);
            }
        }
        lemma_units_of_joined(all);
        lemma_first_picture_unit_decides(before, unit, after);
    }
}

/// A last unit that is cut short adds nothing, and neither do up to four bytes that are left
/// over: there is no picture in them.
pub proof fn lemma_cut_unit_is_left_out(units: Seq<Seq<u8>>, tail: Seq<u8>)
    requires
        forall|i: int| 0 <= i < units.len() ==> 0 < #[trigger] units[i].len() <= u32::MAX,
        tail.len() <= 4 || tail[0] as int * 0x1000000 + tail[1] as int * 0x10000 + tail[2] as int
            * 0x100 + tail[3] as int > tail.len() - 4,
    ensures
        nal_units(joined(units) + tail) == units,
    decreases units.len(),
{
    if units.len() == 0 {
        assert(joined(units) + tail =~= tail);
        assert(nal_units(tail) =~= units);
    } else {
        let first = units[0];
        let n = first.len();
        let rest = joined(units.skip(1)) + tail;
        let au = joined(units) + tail;
        assert(au =~= be32_bytes(n) + first + rest);
        assert(n == (n / 0x1000000) * 0x1000000 + ((n / 0x10000) % 0x100) * 0x10000 + ((n / 0x100)
            % 0x100) * 0x100 + n % 0x100);
        assert(be32(au) == n);
        assert(au.subrange(4, 4 + n as int) =~= first);
        assert(au.skip(4 + n as int) =~= rest);
        lemma_cut_unit_is_left_out(units.skip(1), tail);
        assert(nal_units(au) =~= seq![first] + units.skip(1));
        assert(seq![first] + units.skip(1) =~= units);
    }
}

/// A unit of length zero is passed over.
pub proof fn lemma_empty_unit_is_passed_over(au: Seq<u8>)
    ensures
        first_picture(nal_units(seq![0u8, 0u8, 0u8, 0u8] + au)) == first_picture(nal_units(au)),
{
    let all = seq![0u8, 0u8, 0u8, 0u8] + au;
    assert(be32(all) == 0);
    assert(all.skip(4) =~= au);
    if au.len() > 0 {
        let units = nal_units(all);
        assert(all.subrange(4, 4) =~= Seq::<u8>::empty());
        assert(units =~= seq![Seq::<u8>::empty()] + nal_units(au));
        assert(units[0] =~= Seq::<u8>::empty());
        assert(units.skip(1) =~= nal_units(au));
    } else {
        assert(all.len() == 4);
        assert(nal_units(all) =~= Seq::<Seq<u8>>::empty());
        assert(nal_units(au) =~= Seq::<Seq<u8>>::empty());
    }
}

}
