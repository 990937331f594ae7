//! The packed syllable.
use duck_pinyin::fields::{
    encode, syllable_of, tone_of, Final, Initial, Tone, FINAL_MASK, INITIAL_BASE_MASK,
    INITIAL_MASK, SYLLABLE_MASK, TONE_CLASS_MASK, TONE_MASK,
};

#[test]
fn fields_pack_and_read_back() {
    let zh: Initial = Initial::from_bits(0x8016);
    let ong: Final = Final::from_bits(0x0E00);
    let value: u16 = encode(zh, ong, Tone::from_bits(Tone::T1));
    assert_eq!(value, 0x8E96);
    assert_eq!(Initial::from_bits(value), zh);
    assert_eq!(Final::from_bits(value), ong);
    assert_eq!(tone_of(value), Tone::from_bits(Tone::T1));
    assert_eq!(syllable_of(value), 0x8E16);
}

#[test]
fn masks_partition_the_value() {
    assert_eq!(INITIAL_MASK | FINAL_MASK, SYLLABLE_MASK);
    assert_eq!(SYLLABLE_MASK ^ TONE_MASK, 0xFFFF);
    assert_eq!(INITIAL_MASK & FINAL_MASK, 0);
    for value in 0..=u16::MAX {
        let initial: Initial = Initial::from_bits(value);
        let final_: Final = Final::from_bits(value);
        assert_eq!(encode(initial, final_, tone_of(value)), value);
    }
}

#[test]
fn bits_outside_a_field_are_dropped() {
    assert_eq!(Initial::from_bits(0xFFFF).bits(), 0x801F);
    assert_eq!(Final::from_bits(0xFFFF).bits(), 0x7F00);
    assert_eq!(Tone::from_bits(0xFFFF).bits(), 0x00E0);
}

#[test]
fn variants_collapse_onto_their_base() {
    let ch: u16 = 0x8004;
    let zh: u16 = 0x8016;
    assert_eq!(ch & INITIAL_BASE_MASK, 0x0004);
    assert_eq!(zh & INITIAL_BASE_MASK, 22);
}

#[test]
fn tones_have_digits() {
    let digit = |code: u16| Tone::from_bits(code).digit();
    assert_eq!(digit(Tone::T1), Some(1));
    assert_eq!(digit(Tone::T2), Some(2));
    assert_eq!(digit(Tone::T3), Some(3));
    assert_eq!(digit(Tone::T4), Some(4));
    assert_eq!(digit(Tone::NEUTRAL), Some(5));
    assert_eq!(digit(Tone::MISSING), None);
    assert_eq!(digit(Tone::UNSPEC), None);
    assert_eq!(digit(0x0040), None);
}

#[test]
fn tone_classes_are_one_mask_apart() {
    let class = |code: u16| (0x8E16 | code) & TONE_CLASS_MASK;
    assert_eq!(class(Tone::T1), 128);
    assert_eq!(class(Tone::T2), 128);
    assert_eq!(class(Tone::T3), 192);
    assert_eq!(class(Tone::T4), 192);
    assert_ne!(class(Tone::NEUTRAL), 128);
    assert_ne!(class(Tone::MISSING), 192);
}
