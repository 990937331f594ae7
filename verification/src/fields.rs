//! The packed syllable: three disjoint bit fields in a `u16`.
//!
//! ```text
//! bit 15      声母 variant   ch/sh/zh and the special H/R/M/N
//! bit 14..8   韵母           bits 14..13 variant, bits 12..8 base
//! bit  7..5   声调
//! bit  4..0   声母 base
//! ```
//!
//! A base value occupies the low bits of its field and the variant bit sits above
//! it, so masking the variant off collapses a variant onto its base. The 韵母 is
//! phonemic, not orthographic: `chi` is ch + ri, `liu` is l + iou.
use vstd::prelude::*;

verus! {

/// 声母 field: the whole base plus its variant-select bit.
pub const INITIAL_MASK: u16 = 0x801F;

/// 韵母 field.
pub const FINAL_MASK: u16 = 0x7F00;

/// 声调 field.
pub const TONE_MASK: u16 = 0x00E0;

/// 声母 and 韵母, i.e. everything but the 声调.
pub const SYLLABLE_MASK: u16 = 0xFF1F;

/// The bit that turns a 声母 base into its variant form.
pub const INITIAL_VARIANT: u16 = 0x8000;

/// The 声母 base, without the variant-select bit.
pub const INITIAL_BASE_MASK: u16 = 0x001F;

/// The two 声调 bits that tell 平声 from 仄声.
pub const TONE_CLASS_MASK: u16 = 0x00C0;

/// `code` has no bit outside the 声母 field.
pub open spec fn is_initial_code(code: u16) -> bool {
    code & INITIAL_MASK == code
}

/// `code` has no bit outside the 韵母 field.
pub open spec fn is_final_code(code: u16) -> bool {
    code & FINAL_MASK == code
}

/// `code` has no bit outside the 声调 field.
pub open spec fn is_tone_code(code: u16) -> bool {
    code & TONE_MASK == code
}

/// 声母, including the zero initial and the variant-select forms.
#[derive(Clone, Copy, PartialEq, Eq, Debug, Structural)]
pub struct Initial(u16);

/// 韵母. Phonemic, so `chi` is ch + ri rather than ch + i.
#[derive(Clone, Copy, PartialEq, Eq, Debug, Structural)]
pub struct Final(u16);

/// 声调. `MISSING` means the syllable was written without one.
#[derive(Clone, Copy, PartialEq, Eq, Debug, Structural)]
pub struct Tone(u16);

impl View for Initial {
    type V = u16;

    closed spec fn view(&self) -> u16 {
        self.0
    }
}

impl View for Final {
    type V = u16;

    closed spec fn view(&self) -> u16 {
        self.0
    }
}

impl View for Tone {
    type V = u16;

    closed spec fn view(&self) -> u16 {
        self.0
    }
}

impl Initial {
    /// Code of 零声母: the syllable starts with a vowel.
    pub const NUL: u16 = 0x0002;

    /// Code of the pseudo-initial R.
    pub const R: u16 = 0x8010;

    #[verifier::type_invariant]
    spec fn in_field(self) -> bool {
        is_initial_code(self.0)
    }

    /// Wrap a raw field value, dropping anything outside the field.
    pub fn from_bits(bits: u16) -> (r: Self)
        ensures
            r@ == bits & INITIAL_MASK,
    {
        assert((bits & INITIAL_MASK) & INITIAL_MASK == bits & INITIAL_MASK) by (bit_vector);
        Self(bits & INITIAL_MASK)
    }

    /// The raw field value, as it sits in the packed syllable.
    pub fn bits(self) -> (r: u16)
        ensures
            r == self@,
            is_initial_code(r),
    {
        proof {
            use_type_invariant(&self);
        }
        self.0
    }
}

impl Final {
    #[verifier::type_invariant]
    spec fn in_field(self) -> bool {
        is_final_code(self.0)
    }

    /// Wrap a raw field value, dropping anything outside the field.
    pub fn from_bits(bits: u16) -> (r: Self)
        ensures
            r@ == bits & FINAL_MASK,
    {
        assert((bits & FINAL_MASK) & FINAL_MASK == bits & FINAL_MASK) by (bit_vector);
        Self(bits & FINAL_MASK)
    }

    /// The raw field value, as it sits in the packed syllable.
    pub fn bits(self) -> (r: u16)
        ensures
            r == self@,
            is_final_code(r),
    {
        proof {
            use_type_invariant(&self);
        }
        self.0
    }
}

/// The digit a tone code is written with.
pub open spec fn tone_digit(code: u16) -> Option<u8> {
    if code == Tone::NEUTRAL {
        Some(5)
    } else if code == Tone::T1 {
        Some(1)
    } else if code == Tone::T2 {
        Some(2)
    } else if code == Tone::T3 {
        Some(3)
    } else if code == Tone::T4 {
        Some(4)
    } else {
        None
    }
}

impl Tone {
    /// Code for no tone given.
    pub const MISSING: u16 = 0x0000;

    /// Code for a tone explicitly wildcarded.
    pub const UNSPEC: u16 = 0x0020;

    /// Code of 轻声.
    pub const NEUTRAL: u16 = 0x0060;

    /// Code of 阴平.
    pub const T1: u16 = 0x0080;

    /// Code of 阳平.
    pub const T2: u16 = 0x00A0;

    /// Code of 上声.
    pub const T3: u16 = 0x00C0;

    /// Code of 去声.
    pub const T4: u16 = 0x00E0;

    #[verifier::type_invariant]
    spec fn in_field(self) -> bool {
        is_tone_code(self.0)
    }

    /// Wrap a raw field value, dropping anything outside the field.
    pub fn from_bits(bits: u16) -> (r: Self)
        ensures
            r@ == bits & TONE_MASK,
    {
        assert((bits & TONE_MASK) & TONE_MASK == bits & TONE_MASK) by (bit_vector);
        Self(bits & TONE_MASK)
    }

    /// The raw field value, as it sits in the packed syllable.
    pub fn bits(self) -> (r: u16)
        ensures
            r == self@,
            is_tone_code(r),
    {
        proof {
            use_type_invariant(&self);
        }
        self.0
    }

    /// The digit this tone is written with, if it is one of 1..5.
    pub fn digit(self) -> (r: Option<u8>)
        ensures
            r == tone_digit(self@),
    {
        match self.0 {
            0x0060 => Some(5),
            0x0080 => Some(1),
            0x00A0 => Some(2),
            0x00C0 => Some(3),
            0x00E0 => Some(4),
            _ => None,
        }
    }
}

/// The 声调 of a packed syllable.
pub fn tone_of(value: u16) -> (r: Tone)
    ensures
        r@ == value & TONE_MASK,
{
    Tone::from_bits(value)
}

/// The packed syllable with its 声调 dropped.
pub fn syllable_of(value: u16) -> (r: u16)
    ensures
        r == value & SYLLABLE_MASK,
{
    value & SYLLABLE_MASK
}

/// Three field codes side by side in one `u16`.
pub open spec fn packed(initial: u16, final_: u16, tone: u16) -> u16 {
    initial | final_ | tone
}

/// Pack the three fields into one syllable.
pub fn encode(initial: Initial, final_: Final, tone: Tone) -> (r: u16)
    ensures
        r == packed(initial@, final_@, tone@),
        r & INITIAL_MASK == initial@,
        r & FINAL_MASK == final_@,
        r & TONE_MASK == tone@,
{
    let i: u16 = initial.bits();
    let f: u16 = final_.bits();
    let t: u16 = tone.bits();
    proof {
        law_fields_read_back(i, f, t);
    }
    i | f | t
}

// --- laws of the layout -------------------------------------------------------

/// The three fields are disjoint and together cover the whole value, and the
/// syllable is the 声母 and the 韵母.
pub proof fn law_fields_partition(value: u16)
    ensures
        (value & INITIAL_MASK) | (value & FINAL_MASK) | (value & TONE_MASK) == value,
        (value & INITIAL_MASK) & (value & FINAL_MASK) == 0,
        (value & INITIAL_MASK) & (value & TONE_MASK) == 0,
        (value & FINAL_MASK) & (value & TONE_MASK) == 0,
        value & SYLLABLE_MASK == (value & INITIAL_MASK) | (value & FINAL_MASK),
{
    assert((value & INITIAL_MASK) | (value & FINAL_MASK) | (value & TONE_MASK) == value && (value
        & INITIAL_MASK) & (value & FINAL_MASK) == 0 && (value & INITIAL_MASK) & (value & TONE_MASK)
        == 0 && (value & FINAL_MASK) & (value & TONE_MASK) == 0 && value & SYLLABLE_MASK == (value
        & INITIAL_MASK) | (value & FINAL_MASK)) by (bit_vector);
}

/// What was packed is read back unchanged from each field.
pub proof fn law_fields_read_back(initial: u16, final_: u16, tone: u16)
    requires
        is_initial_code(initial),
        is_final_code(final_),
        is_tone_code(tone),
    ensures
        packed(initial, final_, tone) & INITIAL_MASK == initial,
        packed(initial, final_, tone) & FINAL_MASK == final_,
        packed(initial, final_, tone) & TONE_MASK == tone,
        packed(initial, final_, tone) & SYLLABLE_MASK == initial | final_,
{
    assert((initial | final_ | tone) & INITIAL_MASK == initial && (initial | final_ | tone)
        & FINAL_MASK == final_ && (initial | final_ | tone) & TONE_MASK == tone && (initial | final_
        | tone) & SYLLABLE_MASK == initial | final_) by (bit_vector)
        requires
            initial & INITIAL_MASK == initial,
            final_ & FINAL_MASK == final_,
            tone & TONE_MASK == tone,
    ;
}

/// Two syllables are the same value exactly when all three fields agree.
pub proof fn law_fields_determine_value(a: u16, b: u16)
    ensures
        a == b <==> {
            &&& a & INITIAL_MASK == b & INITIAL_MASK
            &&& a & FINAL_MASK == b & FINAL_MASK
            &&& a & TONE_MASK == b & TONE_MASK
        },
{
    law_fields_partition(a);
    law_fields_partition(b);
}

/// Masking the variant-select bit off collapses a variant 声母 onto its base, and
/// both forms are 声母 codes.
pub proof fn law_variant_collapses(base: u16)
    requires
        base & INITIAL_BASE_MASK == base,
    ensures
        is_initial_code(base),
        is_initial_code(base | INITIAL_VARIANT),
        (base | INITIAL_VARIANT) & INITIAL_BASE_MASK == base,
        base | INITIAL_VARIANT != base,
{
    assert(base & INITIAL_MASK == base && (base | INITIAL_VARIANT) & INITIAL_MASK == base
        | INITIAL_VARIANT && (base | INITIAL_VARIANT) & INITIAL_BASE_MASK == base && base
        | INITIAL_VARIANT != base) by (bit_vector)
        requires
            base & INITIAL_BASE_MASK == base,
    ;
}

/// One masked compare tells the two tone classes: 平声 is 阴平 or 阳平, 仄声 is 上声
/// or 去声.
pub proof fn law_tone_class(value: u16)
    ensures
        value & TONE_CLASS_MASK == 0x0080 <==> (value & TONE_MASK == Tone::T1 || value & TONE_MASK
            == Tone::T2),
        value & TONE_CLASS_MASK == 0x00C0 <==> (value & TONE_MASK == Tone::T3 || value & TONE_MASK
            == Tone::T4),
{
    assert(value & TONE_CLASS_MASK == 0x0080 <==> (value & TONE_MASK == 0x0080 || value & TONE_MASK
        == 0x00A0)) by (bit_vector);
    assert(value & TONE_CLASS_MASK == 0x00C0 <==> (value & TONE_MASK == 0x00C0 || value & TONE_MASK
        == 0x00E0)) by (bit_vector);
}

/// Where the fields sit: the 声母 in bit 15 and bits 4 to 0, the 韵母 in bits 14 to 8, and
/// the 声调 in bits 7 to 5.
pub proof fn law_field_places(value: u16)
    ensures
        value & INITIAL_MASK == value & 0x801F,
        value & FINAL_MASK == ((value >> 8) & 0x7F) << 8,
        value & TONE_MASK == ((value >> 5) & 7) << 5,
        value & SYLLABLE_MASK == value & !0x00E0u16,
        value & INITIAL_BASE_MASK == value % 32,
        value & INITIAL_VARIANT != 0 <==> value >= 0x8000,
{
    assert(value & FINAL_MASK == ((value >> 8) & 0x7F) << 8 && value & TONE_MASK == ((value >> 5)
        & 7) << 5 && value & SYLLABLE_MASK == value & !0x00E0u16 && value & INITIAL_BASE_MASK
        == value % 32 && (value & INITIAL_VARIANT != 0 <==> value >= 0x8000)) by (bit_vector);
}

} // verus!
