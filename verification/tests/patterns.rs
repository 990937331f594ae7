//! Patterns over one syllable and over sequences.
use duck_pinyin::fields::{Final, Initial, Tone};
use duck_pinyin::parse::parse;
use duck_pinyin::pattern::{
    compile_lowered, compile_pattern, final_from_spelling, split_written_initial, Pattern,
};
use duck_pinyin::sequence::{compile_sequence, match_sequence, Elem};
use duck_pinyin::tables::Tables;

/// A small set of tables.
fn tables() -> Tables {
    let syllables: [(&str, u16, u16); 26] = [
        ("a", 0x0002, 0x0300),
        ("ang", 0x0002, 0x0600),
        ("chi", 0x8004, 0x3100),
        ("guo", 0x0007, 0x4D00),
        ("hm", 0x8008, 0x1400),
        ("hng", 0x8008, 0x1500),
        ("hua", 0x0008, 0x4300),
        ("ju", 0x0009, 0x1300),
        ("liu", 0x000B, 0x2F00),
        ("lü", 0x000B, 0x1300),
        ("lüe", 0x000B, 0x7000),
        ("m", 0x800C, 0x0200),
        ("min", 0x000C, 0x2A00),
        ("n", 0x800D, 0x0200),
        ("ng", 0x800D, 0x1500),
        ("pang", 0x000E, 0x0600),
        ("ping", 0x000E, 0x2B00),
        ("ren", 0x0010, 0x0A00),
        ("shang", 0x8011, 0x0600),
        ("yan", 0x0015, 0x2500),
        ("za", 0x0016, 0x0300),
        ("zha", 0x8016, 0x0300),
        ("zhong", 0x8016, 0x0E00),
        ("zi", 0x0016, 0x5100),
        ("zui", 0x0016, 0x4900),
        ("ê", 0x0002, 0x1000),
    ];
    let initials: [(&str, u16); 23] = [
        ("b", 0x0003),
        ("c", 0x0004),
        ("ch", 0x8004),
        ("d", 0x0005),
        ("f", 0x0006),
        ("g", 0x0007),
        ("h", 0x0008),
        ("j", 0x0009),
        ("k", 0x000A),
        ("l", 0x000B),
        ("m", 0x000C),
        ("n", 0x000D),
        ("p", 0x000E),
        ("q", 0x000F),
        ("r", 0x0010),
        ("s", 0x0011),
        ("sh", 0x8011),
        ("t", 0x0012),
        ("w", 0x0013),
        ("x", 0x0014),
        ("y", 0x0015),
        ("z", 0x0016),
        ("zh", 0x8016),
    ];
    let finals: [(&str, u16); 19] = [
        ("a", 0x0300),
        ("ang", 0x0600),
        ("eh", 0x1000),
        ("i", 0x1100),
        ("ian", 0x2500),
        ("ieh", 0x3000),
        ("ien", 0x2A00),
        ("ieng", 0x2B00),
        ("ii", 0x5100),
        ("iou", 0x2F00),
        ("ong", 0x0E00),
        ("ri", 0x3100),
        ("uei", 0x4900),
        ("uen", 0x4A00),
        ("uo", 0x4D00),
        ("v", 0x1300),
        ("van", 0x6500),
        ("veh", 0x7000),
        ("ven", 0x6A00),
    ];
    let mut spellings: Vec<(u16, String)> =
        syllables.iter().map(|(name, i, f)| (i | f, name.to_string())).collect();
    spellings.sort();
    Tables::new(
        syllables
            .iter()
            .map(|(name, i, f)| (name.to_string(), Initial::from_bits(*i), Final::from_bits(*f)))
            .collect(),
        spellings,
        initials.iter().map(|(name, i)| (name.to_string(), Initial::from_bits(*i))).collect(),
        finals.iter().map(|(name, f)| (name.to_string(), Final::from_bits(*f))).collect(),
    )
    .expect("the tables hold together")
}

fn compile(pattern: &str) -> Pattern {
    compile_pattern(&tables(), pattern)
}

fn mask(mask: u16, expect: u16) -> Pattern {
    Pattern::Mask { mask, expect }
}

fn matches_text(value: &str, pattern: &str) -> bool {
    let tables: Tables = tables();
    compile_pattern(&tables, pattern).matches(parse(&tables, value).expect("a syllable"))
}

#[test]
fn documented_patterns() {
    assert_eq!(compile("p?"), mask(0x801F, 0x000E));
    assert_eq!(compile("p"), mask(0x801F, 0x000E));
    assert_eq!(compile("?ang"), mask(0x7F00, 0x0600));
    assert_eq!(compile("zhong"), mask(0xFF1F, 0x8E16));
    assert_eq!(compile("zhong1"), mask(0xFFFF, 0x8E96));
    assert_eq!(compile("zhōng"), mask(0xFFFF, 0x8E96));
    assert_eq!(compile("1"), mask(0x00E0, 0x0080));
    assert_eq!(compile("?1"), mask(0x00E0, 0x0080));
    assert_eq!(compile("?"), mask(0, 0));
    assert_eq!(compile("*"), mask(0, 0));
    assert_eq!(compile("??0"), mask(0, 0));
    assert_eq!(compile("/"), mask(0x801F, 0x0002));
    assert_eq!(compile("&"), mask(0x801F, 0x8010));
}

#[test]
fn parts_combine() {
    assert_eq!(compile(""), mask(0, 0));
    assert_eq!(compile("zhong0"), mask(0xFF1F, 0x8E16));
    assert_eq!(compile("p*"), mask(0x801F, 0x000E));
    assert_eq!(compile("p?1"), mask(0x80FF, 0x008E));
    assert_eq!(compile("*4"), mask(0x00E0, 0x00E0));
    assert_eq!(compile("/ang"), mask(0xFF1F, 0x0602));
    assert_eq!(compile("z?ang"), mask(0xFF1F, 0x0616));
    assert_eq!(compile("??"), mask(0, 0));
    assert_eq!(compile("?*"), mask(0, 0));
    assert_eq!(compile("ian"), mask(0x7F00, 0x2500));
    assert_eq!(compile(" P? "), mask(0x801F, 0x000E));
}

#[test]
fn initials_take_the_longest_match() {
    assert_eq!(compile("zh?"), mask(0x801F, 0x8016));
    assert_eq!(compile("z?"), mask(0x801F, 0x0016));
    assert!(!matches_text("zha", "z?"));
    assert!(matches_text("za", "z?"));
    assert!(matches_text("zha", "zh"));
    let tables: Tables = tables();
    let (initial, rest) = split_written_initial(&tables, &['s', 'h', 'a']).unwrap();
    assert_eq!(initial.bits(), 0x8011);
    assert_eq!(rest.to_vec(), vec!['a']);
    assert!(split_written_initial(&tables, &['a']).is_none());
    assert!(split_written_initial(&tables, &['v', 'a']).is_none());
    assert!(split_written_initial(&tables, &[]).is_none());
}

#[test]
fn finals_are_phonemic() {
    let tables: Tables = tables();
    let code = |name: &str| {
        let chars: Vec<char> = name.chars().collect();
        final_from_spelling(&tables, &chars).map(|f| f.bits())
    };
    assert_eq!(code("iu"), Some(0x2F00));
    assert_eq!(code("ui"), Some(0x4900));
    assert_eq!(code("in"), Some(0x2A00));
    assert_eq!(code("un"), Some(0x4A00));
    assert_eq!(code("ing"), Some(0x2B00));
    assert_eq!(code("ie"), Some(0x3000));
    assert_eq!(code("ê"), Some(0x1000));
    assert_eq!(code("ü"), Some(0x1300));
    assert_eq!(code("üe"), Some(0x7000));
    assert_eq!(code("üan"), Some(0x6500));
    assert_eq!(code("ün"), Some(0x6A00));
    assert_eq!(code("uo"), Some(0x4D00));
    assert_eq!(code("xyz"), None);
    assert_eq!(compile("?v"), mask(0x7F00, 0x1300));
    assert_eq!(compile("?iu2"), mask(0x7FE0, 0x2FA0));
}

#[test]
fn a_lone_letter_may_be_a_syllable() {
    assert_eq!(compile("n"), mask(0xFF1F, 0x820D));
    assert_eq!(compile("n?"), mask(0x801F, 0x000D));
}

#[test]
fn illegal_patterns() {
    for text in ["zzz", "**", "*a", "zhong6", "zhōng1", "?zzz", "//", "?/", "zhong guo", "p?x", "中"] {
        assert_eq!(compile(text), Pattern::Never);
    }
    assert!(!Pattern::Never.matches(0));
}

#[test]
fn a_digit_adds_its_tone() {
    let tables: Tables = tables();
    let tones: [u16; 6] = [0, Tone::T1, Tone::T2, Tone::T3, Tone::T4, Tone::NEUTRAL];
    for text in ["", "?", "*", "p", "P?", "?ang", "zhong", "/ang", "&", "zzz", "Σ"] {
        let plain: Pattern = compile_pattern(&tables, text);
        assert_eq!(compile_pattern(&tables, &format!("{text}0")), plain);
        for digit in 1..10 {
            let toned: Pattern = compile_pattern(&tables, &format!("{text}{digit}"));
            let expected: Pattern = match (plain, tones.get(digit)) {
                (Pattern::Mask { mask, expect }, Some(tone)) => {
                    Pattern::Mask { mask: mask | 0x00E0, expect: expect | tone }
                }
                _ => Pattern::Never,
            };
            assert_eq!(toned, expected);
        }
    }
    assert_eq!(compile_pattern(&tables, "zhōng1"), Pattern::Never);
}

#[test]
fn letter_case_of_patterns() {
    let tables: Tables = tables();
    for (capital, small) in [("ZH?", "zh?"), ("?ÜE", "?üe"), ("ZHŌNG", "zhōng"), ("?LVE", "?lve")] {
        assert_eq!(compile_pattern(&tables, capital), compile_pattern(&tables, small));
    }
}

#[test]
fn lowered_patterns() {
    let tables: Tables = tables();
    assert_eq!(compile_lowered(&tables, "zhong1"), mask(0xFFFF, 0x8E96));
    assert_eq!(compile_lowered(&tables, "ZHONG1"), Pattern::Never);
}

#[test]
fn a_value_matches_its_own_text() {
    for text in ["zhong", "zhong0", "zhōng", "lv4", "ê3", "ng", "M2"] {
        assert!(matches_text(text, text));
    }
    assert!(matches_text("zhong1", "zhong"));
    assert!(!matches_text("zhong", "zhong1"));
    assert!(!matches_text("zhong2", "zhong1"));
    assert!(matches_text("shǎng", "?ang"));
    assert!(matches_text("ang4", "/"));
    assert!(!matches_text("hua", "&"));
}

// --- sequences ------------------------------------------------------------------

fn phrase(texts: &[&str]) -> Vec<u16> {
    let tables: Tables = tables();
    texts.iter().map(|text| parse(&tables, text).expect("a syllable")).collect()
}

fn matches_phrase(texts: &[&str], pattern: &str) -> bool {
    let elems: Vec<Elem> = compile_sequence(&tables(), pattern).expect("a pattern");
    match_sequence(&elems, &phrase(texts))
}

#[test]
fn sequences_compile() {
    let tables: Tables = tables();
    let zhong: Elem = Elem::One(mask(0xFF1F, 0x8E16));
    let free: Elem = Elem::One(mask(0, 0));
    assert_eq!(compile_sequence(&tables, ""), Some(vec![]));
    assert_eq!(compile_sequence(&tables, " \t\u{3000}"), Some(vec![]));
    assert_eq!(compile_sequence(&tables, "zhong"), Some(vec![zhong]));
    assert_eq!(compile_sequence(&tables, "* zhong"), Some(vec![free, zhong]));
    assert_eq!(compile_sequence(&tables, "**"), Some(vec![Elem::Any]));
    assert_eq!(compile_sequence(&tables, "** \n **"), Some(vec![Elem::Any]));
    assert_eq!(
        compile_sequence(&tables, "** zhong ** **"),
        Some(vec![Elem::Any, zhong, Elem::Any])
    );
    assert_eq!(compile_sequence(&tables, "zhong zzz"), None);
    assert_eq!(compile_sequence(&tables, "***"), None);
}

#[test]
fn documented_phrases() {
    assert!(matches_phrase(&["zhong1", "guo2"], "zhong guo"));
    assert!(!matches_phrase(&["zhong1", "guo2", "ren2"], "zhong guo"));
    assert!(matches_phrase(&["zhong1", "guo2"], "zhong ** guo"));
    assert!(matches_phrase(&["zhong1", "ren2", "min2", "guo2"], "zhong ** guo"));
    assert!(!matches_phrase(&["zhong1"], "zhong ** guo"));
    assert!(matches_phrase(&["zhong1", "ren2"], "zhong **"));
    assert!(matches_phrase(&["ping2", "ren2"], "p **"));
    assert!(!matches_phrase(&["ren2", "ping2"], "p **"));
    assert!(matches_phrase(&["ren2", "ping2"], "* *"));
    assert!(!matches_phrase(&["ren2"], "* *"));
    assert!(matches_phrase(&["ping2", "ren2", "min2"], "p   *   *"));
    assert!(matches_phrase(&["ren2"], "*"));
    assert!(!matches_phrase(&[], "*"));
    assert!(matches_phrase(&[], "**"));
    assert!(matches_phrase(&[], ""));
    assert!(!matches_phrase(&["ren2"], ""));
}

#[test]
fn runs_give_back() {
    assert!(matches_phrase(&["zhong1", "guo2", "zhong1", "guo2"], "** zhong guo"));
    assert!(matches_phrase(&["guo2", "zhong1", "guo2", "ren2"], "** zhong guo **"));
    assert!(!matches_phrase(&["guo2", "zhong1", "ren2"], "** zhong guo **"));
    assert!(matches_phrase(&["a", "a", "za", "a", "za", "zha"], "** a za ** zha"));
    assert!(!matches_phrase(&["a", "a", "za", "a", "zha", "za"], "** a za ** zha"));
}

/// Whether the values match, straight from what a pattern means.
fn accepts(elems: &[Elem], values: &[u16]) -> bool {
    match elems.first() {
        None => values.is_empty(),
        Some(Elem::One(pattern)) => {
            !values.is_empty() && pattern.matches(values[0]) && accepts(&elems[1..], &values[1..])
        }
        Some(Elem::Any) => (0..=values.len()).any(|n| accepts(&elems[1..], &values[n..])),
    }
}

#[test]
fn matching_means_what_it_says() {
    let kinds: [Elem; 3] = [Elem::One(mask(1, 0)), Elem::One(mask(1, 1)), Elem::Any];
    for code in 0..3_usize.pow(5) {
        for length in 0..=5_u32 {
            let elems: Vec<Elem> =
                (0..length).map(|i| kinds[code / 3_usize.pow(i) % 3]).collect();
            for bits in 0..64_u16 {
                let values: Vec<u16> = (0..6).map(|i| bits >> i & 1).collect();
                for end in 0..=6 {
                    assert_eq!(
                        match_sequence(&elems, &values[..end]),
                        accepts(&elems, &values[..end])
                    );
                }
            }
        }
    }
}

#[test]
fn a_list_of_one_is_matched_as_its_syllable() {
    let tables: Tables = tables();
    for pattern in ["zhong", "z?", "?ang", "1", "*"] {
        for value in phrase(&["zhong1", "za", "shǎng"]) {
            let elems: Vec<Elem> = compile_sequence(&tables, pattern).unwrap();
            assert_eq!(
                match_sequence(&elems, &[value]),
                compile_pattern(&tables, pattern).matches(value)
            );
        }
    }
}

#[test]
fn a_tone_class_is_no_pattern() {
    let tables: Tables = tables();
    let codes: [u16; 4] = [Tone::T1, Tone::T2, Tone::T3, Tone::T4];
    for pattern in ["zhong", "zhong1", "1", "2", "*", "?ong3"] {
        let compiled: Pattern = compile_pattern(&tables, pattern);
        let hits: usize = codes.iter().filter(|code| compiled.matches(0x8E16 | **code)).count();
        assert!(hits == 0 || hits == 1 || hits == 4);
    }
}

#[test]
fn a_single_pattern_is_a_phrase_of_one() {
    let tables: Tables = tables();
    let value: u16 = parse(&tables, "zhong1").unwrap();
    for (text, accepts) in [("*", true), ("?", true), ("zhong", true), ("zh", true), ("p", false)] {
        let elems: Vec<Elem> = compile_sequence(&tables, text).unwrap();
        assert!(!match_sequence(&elems, &[]));
        assert_eq!(match_sequence(&elems, &[value]), accepts);
        assert!(!match_sequence(&elems, &[value, value]));
    }
    assert!(compile_sequence(&tables, "zzz").is_none());
}
