//! Reading and writing syllables.
use duck_pinyin::fields::{Final, Initial, Tone};
use duck_pinyin::parse::{parse, parse_lowered, split_tone, ParseError};
use duck_pinyin::render::{marked, render};
use duck_pinyin::tables::{lookup, plain, Tables};
use duck_pinyin::tone::{combining_tone, demark, mark_vowel, split_lowered};

/// A small set of tables.
fn tables() -> Tables {
    let syllables: [(&str, u16, u16); 26] = [
        ("a", 0x0002, 0x0300),
        ("ang", 0x0002, 0x0600),
        ("chi", 0x8004, 0x3100),
        ("guo", 0x0007, 0x4D00),
        ("hm", 0x8008, 0x1400),
        ("hng", 0x8008, 0x1500),
        ("hua", 0x0008, 0x4300),
        ("ju", 0x0009, 0x1300),
        ("liu", 0x000B, 0x2F00),
        ("lü", 0x000B, 0x1300),
        ("lüe", 0x000B, 0x7000),
        ("m", 0x800C, 0x0200),
        ("min", 0x000C, 0x2A00),
        ("n", 0x800D, 0x0200),
        ("ng", 0x800D, 0x1500),
        ("pang", 0x000E, 0x0600),
        ("ping", 0x000E, 0x2B00),
        ("ren", 0x0010, 0x0A00),
        ("shang", 0x8011, 0x0600),
        ("yan", 0x0015, 0x2500),
        ("za", 0x0016, 0x0300),
        ("zha", 0x8016, 0x0300),
        ("zhong", 0x8016, 0x0E00),
        ("zi", 0x0016, 0x5100),
        ("zui", 0x0016, 0x4900),
        ("ê", 0x0002, 0x1000),
    ];
    let initials: [(&str, u16); 23] = [
        ("b", 0x0003),
        ("c", 0x0004),
        ("ch", 0x8004),
        ("d", 0x0005),
        ("f", 0x0006),
        ("g", 0x0007),
        ("h", 0x0008),
        ("j", 0x0009),
        ("k", 0x000A),
        ("l", 0x000B),
        ("m", 0x000C),
        ("n", 0x000D),
        ("p", 0x000E),
        ("q", 0x000F),
        ("r", 0x0010),
        ("s", 0x0011),
        ("sh", 0x8011),
        ("t", 0x0012),
        ("w", 0x0013),
        ("x", 0x0014),
        ("y", 0x0015),
        ("z", 0x0016),
        ("zh", 0x8016),
    ];
    let finals: [(&str, u16); 19] = [
        ("a", 0x0300),
        ("ang", 0x0600),
        ("eh", 0x1000),
        ("i", 0x1100),
        ("ian", 0x2500),
        ("ieh", 0x3000),
        ("ien", 0x2A00),
        ("ieng", 0x2B00),
        ("ii", 0x5100),
        ("iou", 0x2F00),
        ("ong", 0x0E00),
        ("ri", 0x3100),
        ("uei", 0x4900),
        ("uen", 0x4A00),
        ("uo", 0x4D00),
        ("v", 0x1300),
        ("van", 0x6500),
        ("veh", 0x7000),
        ("ven", 0x6A00),
    ];
    let mut spellings: Vec<(u16, String)> =
        syllables.iter().map(|(name, i, f)| (i | f, name.to_string())).collect();
    spellings.sort();
    Tables::new(
        syllables
            .iter()
            .map(|(name, i, f)| (name.to_string(), Initial::from_bits(*i), Final::from_bits(*f)))
            .collect(),
        spellings,
        initials.iter().map(|(name, i)| (name.to_string(), Initial::from_bits(*i))).collect(),
        finals.iter().map(|(name, f)| (name.to_string(), Final::from_bits(*f))).collect(),
    )
    .expect("the tables hold together")
}

/// The value a text reads as, if it does.
fn read(text: &str) -> Option<u16> {
    parse(&tables(), text).ok()
}

/// A text read and written out again.
fn rewrite(text: &str) -> String {
    let tables: Tables = tables();
    render(&tables, parse(&tables, text).expect("a syllable"))
}

#[test]
fn documented_values() {
    assert_eq!(read("zhong"), Some(0x8E16));
    assert_eq!(read("zhong1"), Some(0x8E96));
    assert_eq!(read("shǎng"), Some(34513));
    assert_eq!(read("zhong5"), Some(0x8E76));
    assert_eq!(read("zhong0"), Some(0x8E36));
}

#[test]
fn three_ways_agree() {
    assert_eq!(read("zhong1"), read("zhōng"));
    assert_eq!(read("ping2"), read("píng"));
    assert_eq!(read("lü4"), read("lǜ"));
    assert_ne!(read("zhong"), read("zhong1"));
    assert_ne!(read("zhong"), read("zhong0"));
}

#[test]
fn split_is_phonemic() {
    let tables: Tables = tables();
    let codes = |name: &str| lookup(&tables, name).map(|(i, f)| (i.bits(), f.bits()));
    assert_eq!(codes("zi"), Some((0x0016, 0x5100)));
    assert_eq!(codes("chi"), Some((0x8004, 0x3100)));
    assert_eq!(codes("liu"), Some((0x000B, 0x2F00)));
    assert_eq!(codes("ju").map(|(_, f)| f), codes("lü").map(|(_, f)| f));
    assert_eq!(codes("zzz"), None);
    assert_eq!(codes(""), None);
}

#[test]
fn every_syllable_is_found() {
    let tables: Tables = tables();
    let value: u16 = parse(&tables, "zui").unwrap();
    assert_eq!(plain(&tables, value), "zui");
    assert_eq!(plain(&tables, value | Tone::T4), "zui");
    assert_eq!(plain(&tables, 0xFFFF), "");
    assert_eq!(render(&tables, 0xFFFF), "4");
    assert_eq!(render(&tables, 0x0000), "");
}

#[test]
fn case_space_and_v() {
    assert_eq!(read("  ZhOnG1\t"), read("zhong1"));
    assert_eq!(read("\u{3000}zhong1\u{00A0}\u{2009}\u{0085}"), read("zhong1"));
    assert_eq!(read("\u{200B}zhong1"), None);
    assert_eq!(read("ZHŌNG"), read("zhōng"));
    assert_eq!(read("lv4"), read("lü4"));
    assert_eq!(read("LVE4"), read("lüè"));
    assert_eq!(read("zh ong"), None);
}

#[test]
fn letter_case_never_matters() {
    for (capital, small) in [
        ("ZHŌNG", "zhōng"),
        ("ZhÓnG", "zhóng"),
        ("LÜÈ", "lüè"),
        ("LǛ", "lǜ"),
        ("Ê2", "ê2"),
        ("Ế", "ế"),
        ("Ḿ", "ḿ"),
        ("Ň", "ň"),
        ("PǏNG", "pǐng"),
    ] {
        assert!(read(small).is_some());
        assert_eq!(read(capital), read(small));
    }
    // The Kelvin sign has the small letter `k`, which no syllable of the tables has.
    assert_eq!(read("\u{212A}A"), None);
    // The long s is a small letter already, and the capital sigma no letter of pinyin.
    assert_eq!(read("\u{017F}HANG"), None);
    for text in ["ZHONGΣ", "ΣZHONG", "ZHONGΣ1"] {
        assert_eq!(read(text), None);
        assert_eq!(read(&text.to_ascii_lowercase()), None);
    }
    let spelled = |text: &str| split_tone(text).unwrap().0;
    assert_eq!(spelled("AΣ"), spelled("aΣ"));
    assert_eq!(spelled("\u{212A}AN"), vec!['k', 'a', 'n']);
    assert_eq!(spelled(" \u{212A}an4 "), vec!['k', 'a', 'n']);
}

#[test]
fn a_digit_is_the_tone() {
    let codes: [u16; 6] = [0x20, 0x80, 0xA0, 0xC0, 0xE0, 0x60];
    for text in ["zhong", "ZHONG", "lve", "Ê", "m"] {
        let value: u16 = read(text).unwrap();
        for digit in 0..10 {
            let toned: Option<u16> = read(&format!("{text}{digit}"));
            assert_eq!(toned, codes.get(digit).map(|code| value | code));
        }
    }
    assert_eq!(read("zhong 1"), None);
    assert_eq!(read("zhong11"), None);
}

#[test]
fn rendering_inverts_parsing() {
    assert_eq!(rewrite("zhong1"), "zhōng");
    assert_eq!(rewrite("liu2"), "liú");
    assert_eq!(rewrite("zhong"), "zhong");
    assert_eq!(rewrite("zui4"), "zuì");
    assert_eq!(rewrite("guo2"), "guó");
    assert_eq!(rewrite("hua1"), "huā");
    assert_eq!(rewrite("lve4"), "lüè");
    assert_eq!(rewrite("zhong5"), "zhong5");
    assert_eq!(rewrite("zhong0"), "zhong");
    let tables: Tables = tables();
    for name in ["a", "chi", "liu", "lü", "lüe", "m", "n", "ng", "hm", "hng", "ê", "zhong", "zui"] {
        for digit in ["", "1", "2", "3", "4", "5"] {
            let value: u16 = parse(&tables, &format!("{name}{digit}")).unwrap();
            assert_eq!(parse(&tables, &render(&tables, value)).unwrap(), value);
        }
        let free: u16 = parse(&tables, &format!("{name}0")).unwrap();
        assert_eq!(parse(&tables, &render(&tables, free)).unwrap(), free ^ Tone::UNSPEC);
    }
}

#[test]
fn letters_without_marks_take_digits() {
    assert_eq!(rewrite("ê3"), "ê3");
    assert_eq!(rewrite("ê1"), "ê1");
    assert_eq!(rewrite("ê2"), "ế");
    assert_eq!(rewrite("ê4"), "ề");
    assert_eq!(rewrite("m1"), "m1");
    assert_eq!(rewrite("m2"), "ḿ");
    assert_eq!(rewrite("n1"), "n1");
    assert_eq!(rewrite("n2"), "ń");
    assert_eq!(rewrite("n3"), "ň");
    assert_eq!(rewrite("n4"), "ǹ");
    assert_eq!(rewrite("ng2"), "ng2");
    assert_eq!(rewrite("hm1"), "hm1");
    assert_eq!(rewrite("hng4"), "hng4");
}

#[test]
fn combining_marks_are_tones() {
    assert_eq!(read("m\u{0304}"), read("m1"));
    assert_eq!(read("ê\u{030C}"), read("ê3"));
    assert_eq!(read("n\u{0300}g"), read("ng4"));
    assert_eq!(read("m\u{0301}"), read("ḿ"));
    assert_eq!(combining_tone('\u{0300}').map(|t| t.bits()), Some(Tone::T4));
    assert_eq!(combining_tone('a'), None);
}

#[test]
fn unreadable_texts() {
    for text in ["", "   ", "zzz", "zhong6", "zhong9", "zhōng1", "zhōngó", "zhōng\u{0301}", "1", "中"] {
        let error: ParseError = parse(&tables(), text).unwrap_err();
        assert_eq!(error.input, text);
    }
    let error: ParseError = parse(&tables(), " zzz ").unwrap_err();
    assert_eq!(error.message(), "Invalid pinyin syllable: ' zzz '");
    assert_eq!(split_tone("zhong7").unwrap_err().input, "zhong7");
}

#[test]
fn lowered_texts() {
    let tables: Tables = tables();
    assert_eq!(parse_lowered(&tables, "zhong1"), Some(0x8E96));
    assert_eq!(parse_lowered(&tables, "Zhong1"), None);
    assert_eq!(parse_lowered(&tables, " zhong1"), None);
    let (spelling, tone) = split_lowered("nǚ").unwrap();
    assert_eq!(spelling, vec!['n', 'ü']);
    assert_eq!(tone.map(|t| t.bits()), Some(Tone::T3));
    let (spelling, tone) = split_lowered("").unwrap();
    assert_eq!(spelling, Vec::<char>::new());
    assert_eq!(tone, None);
}

#[test]
fn marks_go_on_and_come_off() {
    for vowel in ['a', 'e', 'i', 'o', 'u', 'ü'] {
        for code in [Tone::T1, Tone::T2, Tone::T3, Tone::T4] {
            let tone: Tone = Tone::from_bits(code);
            let mark: char = mark_vowel(vowel, tone).unwrap();
            assert_eq!(demark(mark), Some((vowel, tone)));
        }
        assert_eq!(mark_vowel(vowel, Tone::from_bits(Tone::NEUTRAL)), None);
        assert_eq!(demark(vowel), None);
    }
    assert_eq!(mark_vowel('x', Tone::from_bits(Tone::T1)), None);
    assert_eq!(demark('ề'), Some(('ê', Tone::from_bits(Tone::T4))));
}

#[test]
fn mark_position() {
    let first = |text: &str| marked(text, Tone::from_bits(Tone::T1));
    assert_eq!(first("hao"), Some("hāo".to_string()));
    assert_eq!(first("gou"), Some("gōu".to_string()));
    assert_eq!(first("lüe"), Some("lüē".to_string()));
    assert_eq!(first("iu"), Some("iū".to_string()));
    assert_eq!(first("ui"), Some("uī".to_string()));
    assert_eq!(first("zzz"), None);
    assert_eq!(first(""), None);
    assert_eq!(marked("m", Tone::from_bits(Tone::T2)), Some("ḿ".to_string()));
}
