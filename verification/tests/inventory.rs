//! The full inventory of syllables that the extension is built with.
use duck_pinyin::fields::{Final, Initial, Tone, INITIAL_BASE_MASK, INITIAL_MASK};
use duck_pinyin::parse::parse;
use duck_pinyin::pattern::{compile_pattern, final_from_spelling, split_written_initial};
use duck_pinyin::render::render;
use duck_pinyin::tables::{lookup, Tables};

/// Rows with a name and two codes.
type Syllables = Vec<(&'static str, u16, u16)>;

/// Rows with a name and a code.
type Named = Vec<(&'static str, u16)>;

/// Rows with a packed syllable and its spelling.
type Spellings = Vec<(u16, &'static str)>;

/// Tables from rows, if the rows will do.
fn load(
    syllables: Syllables,
    spellings: Spellings,
    initials: Named,
    finals: Named,
) -> Option<Tables> {
    Tables::new(
        syllables
            .into_iter()
            .map(|(name, i, f)| (name.to_string(), Initial::from_bits(i), Final::from_bits(f)))
            .collect(),
        spellings.into_iter().map(|(key, name)| (key, name.to_string())).collect(),
        initials.into_iter().map(|(name, i)| (name.to_string(), Initial::from_bits(i))).collect(),
        finals.into_iter().map(|(name, f)| (name.to_string(), Final::from_bits(f))).collect(),
    )
}

/// The whole inventory.
fn inventory() -> Tables {
    load(syllables(), spellings(), initials(), finals()).expect("the tables are standard")
}

/// A named row with another code.
fn with_code(mut rows: Named, name: &str, code: u16) -> Named {
    for row in rows.iter_mut() {
        if row.0 == name {
            row.1 = code;
        }
    }
    rows
}

/// The syllables and the spellings with one more row, in their places.
fn with_syllable(name: &'static str, initial: u16, final_: u16) -> (Syllables, Spellings) {
    let mut names: Syllables = syllables();
    names.push((name, initial, final_));
    names.sort();
    let mut keys: Spellings = spellings();
    keys.push((initial | final_, name));
    keys.sort();
    (names, keys)
}

/// Whether tables with these syllables and spellings are taken.
fn taken(syllables: Syllables, spellings: Spellings) -> bool {
    load(syllables, spellings, initials(), finals()).is_some()
}

#[test]
fn tables_that_do_not_hold_together_are_refused() {
    let (names, keys) = with_syllable("pong", 0x000E, 0x0E00);
    assert!(taken(syllables(), spellings()));
    assert!(taken(names.clone(), keys.clone()));
    // A syllable without a spelling, and a spelling without a syllable.
    assert!(!taken(names.clone(), spellings()));
    assert!(!taken(syllables(), keys.clone()));
    // A second writing of a syllable that has a spelling already.
    let (second, _) = with_syllable("paang", 0x000E, 0x0600);
    assert!(taken(second, spellings()));
    // Out of order, or twice.
    let mut reversed: Syllables = syllables();
    reversed.reverse();
    assert!(!taken(reversed, spellings()));
    let mut twice: Syllables = syllables();
    twice.push(("zuo", 0x0016, 0x4D00));
    twice.sort();
    assert!(!taken(twice, spellings()));
    let mut descending: Spellings = spellings();
    descending.reverse();
    assert!(!taken(syllables(), descending));
    // Spellings that read as something else.
    let mut wrong: Spellings = spellings();
    for row in wrong.iter_mut() {
        if row.1 == "pang" {
            row.1 = "peng";
        }
    }
    assert!(!taken(syllables(), wrong));
    // No spelling at all.
    for name in ["pvng", "", "p1"] {
        let (names, keys) = with_syllable(name, 0x000E, 0x0E00);
        assert!(!taken(names, keys));
    }
    assert!(!taken(Vec::new(), Vec::new()));
}

#[test]
fn tables_that_are_not_standard_are_refused() {
    let initial = |name: &str, code: u16| {
        load(syllables(), spellings(), with_code(initials(), name, code), finals()).is_some()
    };
    let final_ = |name: &str, code: u16| {
        load(syllables(), spellings(), initials(), with_code(finals(), name, code)).is_some()
    };
    assert!(initial("b", 0x0003));
    assert!(initial("M", 0x801E));
    assert!(!initial("b", Initial::NUL));
    assert!(!initial("b", 0x0006));
    assert!(!initial("b", 0x001E));
    assert!(!initial("ch", 0x8005));
    assert!(!initial("sh", 0x8012));
    assert!(!initial("zh", 0x0016));
    assert!(!initial("p", 0x000D));
    assert!(!initial("l", 0x000C));
    assert!(!initial("w", 0x8002));
    assert!(!final_("ang", 0x0500));
    assert!(!final_("v", 0x1200));
    assert!(!final_("ii", 0x3100));
    assert!(!final_("i", 0x3100));
    assert!(!final_("iou", 0x2E00));
    let without = |name: &str| {
        let left: Named = initials().into_iter().filter(|row| row.0 != name).collect();
        load(syllables(), spellings(), left, finals()).is_some()
    };
    assert!(without("M"));
    assert!(!without("q"));
    assert!(!without("sh"));
    // A syllable on another 声母 than it is written with, and one on R.
    let added = |name: &'static str, code: u16| {
        let (names, keys) = with_syllable(name, code, 0x1F00);
        taken(names, keys)
    };
    assert!(added("bax", 0x0003));
    assert!(added("aax", 0x0002));
    assert!(!added("bax", 0x0004));
    assert!(!added("bax", 0x0002));
    assert!(!added("aax", 0x0003));
    assert!(!added("aax", 0x8010));
    // Another canonical spelling of a syllable that is written as it is spelled.
    for (name, other) in [("zhong", "zhoong"), ("liu", "liou"), ("ê", "eh")] {
        let (_, i, f) = *syllables().iter().find(|row| row.0 == name).unwrap();
        let mut names: Syllables = syllables();
        names.push((other, i, f));
        names.sort();
        let mut keys: Spellings = spellings();
        assert!(taken(names.clone(), keys.clone()));
        for row in keys.iter_mut() {
            if row.0 == i | f {
                row.1 = other;
            }
        }
        assert!(!taken(names, keys));
    }
}

#[test]
fn documented_renderings() {
    let tables: Tables = inventory();
    for (text, written) in [
        ("zhong1", "zhōng"),
        ("zhong", "zhong"),
        ("liu2", "liú"),
        ("guo2", "guó"),
        ("ê3", "ê3"),
        ("shǎng", "shǎng"),
    ] {
        assert_eq!(render(&tables, parse(&tables, text).unwrap()), written);
    }
}

#[test]
fn initials_are_as_written() {
    let tables: Tables = inventory();
    for (text, base) in [("za", 22), ("zha", 22), ("ca", 4), ("cha", 4), ("sa", 17), ("pa", 14)] {
        assert_eq!(parse(&tables, text).unwrap() & 31, base);
    }
    let nasals: [&str; 5] = ["m", "n", "ng", "hm", "hng"];
    for (name, _, _) in syllables().into_iter().filter(|row| !nasals.contains(&row.0)) {
        let value: u16 = parse(&tables, name).unwrap();
        assert_eq!(value & 31 == 22, name.starts_with('z'));
        assert_eq!(value & 31 == 4, name.starts_with('c'));
        let letters: Vec<char> = name.chars().collect();
        match split_written_initial(&tables, &letters) {
            Some((initial, rest)) => {
                assert_eq!(value & INITIAL_MASK, initial.bits());
                let written: String = letters[..letters.len() - rest.len()].iter().collect();
                assert!(compile_pattern(&tables, &format!("{written}?")).matches(value));
            }
            None => assert!(compile_pattern(&tables, "/").matches(value)),
        }
    }
    let zha: u16 = parse(&tables, "zha").unwrap();
    assert!(!compile_pattern(&tables, "z?").matches(zha));
}

#[test]
fn no_value_carries_the_special_initial() {
    let tables: Tables = inventory();
    let special = compile_pattern(&tables, "&");
    for (name, _, _) in syllables() {
        let value: u16 = parse(&tables, name).unwrap();
        assert_ne!(value & INITIAL_MASK, Initial::R);
        assert!(!special.matches(value));
    }
}

#[test]
fn every_value_is_read_back() {
    let tables: Tables = inventory();
    for (name, initial, final_) in syllables() {
        for digit in ["", "1", "2", "3", "4", "5"] {
            let value: u16 = parse(&tables, &format!("{name}{digit}")).unwrap();
            assert_eq!(value & !0x00E0, initial | final_);
            assert_eq!(parse(&tables, &render(&tables, value)).unwrap(), value);
        }
    }
}

#[test]
fn documented_masks() {
    let tables: Tables = inventory();
    let masks: [(&str, u16, u16); 9] = [
        ("p?", 0x801F, 0x000E),
        ("p", 0x801F, 0x000E),
        ("?ang", 0x7F00, 0x0600),
        ("zhong", 0xFF1F, 0x8E16),
        ("zhong1", 0xFFFF, 0x8E96),
        ("1", 0x00E0, 0x0080),
        ("?1", 0x00E0, 0x0080),
        ("/", 0x801F, 0x0002),
        ("??0", 0, 0),
    ];
    for (text, mask, expect) in masks {
        let pattern = compile_pattern(&tables, text);
        for (name, _, _) in syllables() {
            for tone in [Tone::MISSING, Tone::UNSPEC, Tone::T1, Tone::T4] {
                let value: u16 = parse(&tables, name).unwrap() | tone;
                assert_eq!(pattern.matches(value), value & mask == expect);
            }
        }
    }
    assert_eq!(parse(&tables, "shǎng").unwrap(), 34513);
    assert_eq!(render(&tables, 34513), "shǎng");
}

#[test]
fn a_base_covers_its_variant() {
    let tables: Tables = inventory();
    for (base, variant, code) in [("z?", "zh?", 22), ("c?", "ch?", 4), ("s?", "sh?", 17)] {
        let base = compile_pattern(&tables, base);
        let variant = compile_pattern(&tables, variant);
        for (name, _, _) in syllables() {
            let value: u16 = parse(&tables, name).unwrap();
            let either: bool = base.matches(value) || variant.matches(value);
            assert_eq!(value & INITIAL_BASE_MASK == code, either);
        }
    }
}

#[test]
fn the_split_is_phonemic() {
    let tables: Tables = inventory();
    let syllable = |name: &str| lookup(&tables, name).unwrap();
    let spelled = |name: &str| {
        let letters: Vec<char> = name.chars().collect();
        final_from_spelling(&tables, &letters).unwrap()
    };
    assert_eq!(syllable("ju").1, spelled("ü"));
    assert_eq!(syllable("liu").1, spelled("iu"));
    assert_eq!(syllable("yan").1, spelled("ian"));
    assert_eq!(syllable("chi").1, spelled("ri"));
    assert_eq!(syllable("zi").1, spelled("ii"));
    assert_ne!(syllable("yan").0.bits(), Initial::NUL);
    assert_ne!(syllable("chi").1, syllable("zi").1);
    assert_ne!(syllable("chi").1, spelled("i"));
    assert_ne!(syllable("zi").1, spelled("i"));
}

#[test]
fn every_written_initial_is_found() {
    let tables: Tables = inventory();
    let written: [&str; 23] = [
        "zh", "ch", "sh", "b", "p", "m", "f", "d", "t", "n", "l", "g", "k", "h", "j", "q", "x",
        "r", "z", "c", "s", "y", "w",
    ];
    for name in written {
        let text: Vec<char> = name.chars().chain("ang".chars()).collect();
        let (initial, rest) = split_written_initial(&tables, &text).unwrap();
        assert_ne!(initial.bits(), Initial::NUL);
        assert_eq!(rest, ['a', 'n', 'g']);
    }
    assert!(split_written_initial(&tables, &['a', 'n', 'g']).is_none());
    assert!(split_written_initial(&tables, &['/']).is_none());
    assert!(split_written_initial(&tables, &[]).is_none());
}

// --- the tables: printed by extras/gen_pinyin_table.py

/// Toneless written syllables in code point order, with 声母 and 韵母 codes.
fn syllables() -> Vec<(&'static str, u16, u16)> {
    vec![
        ("a", 0x0002, 0x0300),
        ("ai", 0x0002, 0x0400),
        ("an", 0x0002, 0x0500),
        ("ang", 0x0002, 0x0600),
        ("ao", 0x0002, 0x0700),
        ("ba", 0x0003, 0x0300),
        ("bai", 0x0003, 0x0400),
        ("ban", 0x0003, 0x0500),
        ("bang", 0x0003, 0x0600),
        ("bao", 0x0003, 0x0700),
        ("bei", 0x0003, 0x0900),
        ("ben", 0x0003, 0x0A00),
        ("beng", 0x0003, 0x0B00),
        ("bi", 0x0003, 0x1100),
        ("bian", 0x0003, 0x2500),
        ("biang", 0x0003, 0x2600),
        ("biao", 0x0003, 0x2700),
        ("bie", 0x0003, 0x3000),
        ("bin", 0x0003, 0x2A00),
        ("bing", 0x0003, 0x2B00),
        ("bo", 0x0003, 0x0D00),
        ("bu", 0x0003, 0x1200),
        ("ca", 0x0004, 0x0300),
        ("cai", 0x0004, 0x0400),
        ("can", 0x0004, 0x0500),
        ("cang", 0x0004, 0x0600),
        ("cao", 0x0004, 0x0700),
        ("ce", 0x0004, 0x0800),
        ("cei", 0x0004, 0x0900),
        ("cen", 0x0004, 0x0A00),
        ("ceng", 0x0004, 0x0B00),
        ("cha", 0x8004, 0x0300),
        ("chai", 0x8004, 0x0400),
        ("chan", 0x8004, 0x0500),
        ("chang", 0x8004, 0x0600),
        ("chao", 0x8004, 0x0700),
        ("che", 0x8004, 0x0800),
        ("chen", 0x8004, 0x0A00),
        ("cheng", 0x8004, 0x0B00),
        ("chi", 0x8004, 0x3100),
        ("chong", 0x8004, 0x0E00),
        ("chou", 0x8004, 0x0F00),
        ("chu", 0x8004, 0x1200),
        ("chua", 0x8004, 0x4300),
        ("chuai", 0x8004, 0x4400),
        ("chuan", 0x8004, 0x4500),
        ("chuang", 0x8004, 0x4600),
        ("chui", 0x8004, 0x4900),
        ("chun", 0x8004, 0x4A00),
        ("chuo", 0x8004, 0x4D00),
        ("ci", 0x0004, 0x5100),
        ("cong", 0x0004, 0x0E00),
        ("cou", 0x0004, 0x0F00),
        ("cu", 0x0004, 0x1200),
        ("cuan", 0x0004, 0x4500),
        ("cui", 0x0004, 0x4900),
        ("cun", 0x0004, 0x4A00),
        ("cuo", 0x0004, 0x4D00),
        ("da", 0x0005, 0x0300),
        ("dai", 0x0005, 0x0400),
        ("dan", 0x0005, 0x0500),
        ("dang", 0x0005, 0x0600),
        ("dao", 0x0005, 0x0700),
        ("de", 0x0005, 0x0800),
        ("dei", 0x0005, 0x0900),
        ("den", 0x0005, 0x0A00),
        ("deng", 0x0005, 0x0B00),
        ("di", 0x0005, 0x1100),
        ("dia", 0x0005, 0x2300),
        ("dian", 0x0005, 0x2500),
        ("diao", 0x0005, 0x2700),
        ("die", 0x0005, 0x3000),
        ("din", 0x0005, 0x2A00),
        ("ding", 0x0005, 0x2B00),
        ("diu", 0x0005, 0x2F00),
        ("dong", 0x0005, 0x0E00),
        ("dou", 0x0005, 0x0F00),
        ("du", 0x0005, 0x1200),
        ("duan", 0x0005, 0x4500),
        ("dui", 0x0005, 0x4900),
        ("dun", 0x0005, 0x4A00),
        ("duo", 0x0005, 0x4D00),
        ("e", 0x0002, 0x0800),
        ("ei", 0x0002, 0x0900),
        ("en", 0x0002, 0x0A00),
        ("eng", 0x0002, 0x0B00),
        ("er", 0x0002, 0x0C00),
        ("fa", 0x0006, 0x0300),
        ("fan", 0x0006, 0x0500),
        ("fang", 0x0006, 0x0600),
        ("fei", 0x0006, 0x0900),
        ("fen", 0x0006, 0x0A00),
        ("feng", 0x0006, 0x0B00),
        ("fiao", 0x0006, 0x2700),
        ("fo", 0x0006, 0x0D00),
        ("fong", 0x0006, 0x0E00),
        ("fou", 0x0006, 0x0F00),
        ("fu", 0x0006, 0x1200),
        ("ga", 0x0007, 0x0300),
        ("gai", 0x0007, 0x0400),
        ("gan", 0x0007, 0x0500),
        ("gang", 0x0007, 0x0600),
        ("gao", 0x0007, 0x0700),
        ("ge", 0x0007, 0x0800),
        ("gei", 0x0007, 0x0900),
        ("gen", 0x0007, 0x0A00),
        ("geng", 0x0007, 0x0B00),
        ("gong", 0x0007, 0x0E00),
        ("gou", 0x0007, 0x0F00),
        ("gu", 0x0007, 0x1200),
        ("gua", 0x0007, 0x4300),
        ("guai", 0x0007, 0x4400),
        ("guan", 0x0007, 0x4500),
        ("guang", 0x0007, 0x4600),
        ("gui", 0x0007, 0x4900),
        ("gun", 0x0007, 0x4A00),
        ("guo", 0x0007, 0x4D00),
        ("ha", 0x0008, 0x0300),
        ("hai", 0x0008, 0x0400),
        ("han", 0x0008, 0x0500),
        ("hang", 0x0008, 0x0600),
        ("hao", 0x0008, 0x0700),
        ("he", 0x0008, 0x0800),
        ("hei", 0x0008, 0x0900),
        ("hen", 0x0008, 0x0A00),
        ("heng", 0x0008, 0x0B00),
        ("hm", 0x8008, 0x1400),
        ("hng", 0x8008, 0x1500),
        ("hong", 0x0008, 0x0E00),
        ("hou", 0x0008, 0x0F00),
        ("hu", 0x0008, 0x1200),
        ("hua", 0x0008, 0x4300),
        ("huai", 0x0008, 0x4400),
        ("huan", 0x0008, 0x4500),
        ("huang", 0x0008, 0x4600),
        ("hui", 0x0008, 0x4900),
        ("hun", 0x0008, 0x4A00),
        ("huo", 0x0008, 0x4D00),
        ("ji", 0x0009, 0x1100),
        ("jia", 0x0009, 0x2300),
        ("jian", 0x0009, 0x2500),
        ("jiang", 0x0009, 0x2600),
        ("jiao", 0x0009, 0x2700),
        ("jie", 0x0009, 0x3000),
        ("jin", 0x0009, 0x2A00),
        ("jing", 0x0009, 0x2B00),
        ("jiong", 0x0009, 0x2E00),
        ("jiu", 0x0009, 0x2F00),
        ("ju", 0x0009, 0x1300),
        ("juan", 0x0009, 0x6500),
        ("jue", 0x0009, 0x7000),
        ("jun", 0x0009, 0x6A00),
        ("ka", 0x000A, 0x0300),
        ("kai", 0x000A, 0x0400),
        ("kan", 0x000A, 0x0500),
        ("kang", 0x000A, 0x0600),
        ("kao", 0x000A, 0x0700),
        ("ke", 0x000A, 0x0800),
        ("kei", 0x000A, 0x0900),
        ("ken", 0x000A, 0x0A00),
        ("keng", 0x000A, 0x0B00),
        ("kong", 0x000A, 0x0E00),
        ("kou", 0x000A, 0x0F00),
        ("ku", 0x000A, 0x1200),
        ("kua", 0x000A, 0x4300),
        ("kuai", 0x000A, 0x4400),
        ("kuan", 0x000A, 0x4500),
        ("kuang", 0x000A, 0x4600),
        ("kui", 0x000A, 0x4900),
        ("kun", 0x000A, 0x4A00),
        ("kuo", 0x000A, 0x4D00),
        ("la", 0x000B, 0x0300),
        ("lai", 0x000B, 0x0400),
        ("lan", 0x000B, 0x0500),
        ("lang", 0x000B, 0x0600),
        ("lao", 0x000B, 0x0700),
        ("le", 0x000B, 0x0800),
        ("lei", 0x000B, 0x0900),
        ("leng", 0x000B, 0x0B00),
        ("li", 0x000B, 0x1100),
        ("lia", 0x000B, 0x2300),
        ("lian", 0x000B, 0x2500),
        ("liang", 0x000B, 0x2600),
        ("liao", 0x000B, 0x2700),
        ("lie", 0x000B, 0x3000),
        ("lin", 0x000B, 0x2A00),
        ("ling", 0x000B, 0x2B00),
        ("liu", 0x000B, 0x2F00),
        ("lo", 0x000B, 0x0D00),
        ("long", 0x000B, 0x0E00),
        ("lou", 0x000B, 0x0F00),
        ("lu", 0x000B, 0x1200),
        ("luan", 0x000B, 0x4500),
        ("lun", 0x000B, 0x4A00),
        ("luo", 0x000B, 0x4D00),
        ("lü", 0x000B, 0x1300),
        ("lüan", 0x000B, 0x6500),
        ("lüe", 0x000B, 0x7000),
        ("lün", 0x000B, 0x6A00),
        ("m", 0x800C, 0x0200),
        ("ma", 0x000C, 0x0300),
        ("mai", 0x000C, 0x0400),
        ("man", 0x000C, 0x0500),
        ("mang", 0x000C, 0x0600),
        ("mao", 0x000C, 0x0700),
        ("me", 0x000C, 0x0800),
        ("mei", 0x000C, 0x0900),
        ("men", 0x000C, 0x0A00),
        ("meng", 0x000C, 0x0B00),
        ("mi", 0x000C, 0x1100),
        ("mian", 0x000C, 0x2500),
        ("miao", 0x000C, 0x2700),
        ("mie", 0x000C, 0x3000),
        ("min", 0x000C, 0x2A00),
        ("ming", 0x000C, 0x2B00),
        ("miu", 0x000C, 0x2F00),
        ("mo", 0x000C, 0x0D00),
        ("mou", 0x000C, 0x0F00),
        ("mu", 0x000C, 0x1200),
        ("n", 0x800D, 0x0200),
        ("na", 0x000D, 0x0300),
        ("nai", 0x000D, 0x0400),
        ("nan", 0x000D, 0x0500),
        ("nang", 0x000D, 0x0600),
        ("nao", 0x000D, 0x0700),
        ("ne", 0x000D, 0x0800),
        ("nei", 0x000D, 0x0900),
        ("nen", 0x000D, 0x0A00),
        ("neng", 0x000D, 0x0B00),
        ("ng", 0x800D, 0x1500),
        ("ni", 0x000D, 0x1100),
        ("nia", 0x000D, 0x2300),
        ("nian", 0x000D, 0x2500),
        ("niang", 0x000D, 0x2600),
        ("niao", 0x000D, 0x2700),
        ("nie", 0x000D, 0x3000),
        ("nin", 0x000D, 0x2A00),
        ("ning", 0x000D, 0x2B00),
        ("niu", 0x000D, 0x2F00),
        ("nong", 0x000D, 0x0E00),
        ("nou", 0x000D, 0x0F00),
        ("nu", 0x000D, 0x1200),
        ("nuan", 0x000D, 0x4500),
        ("nun", 0x000D, 0x4A00),
        ("nuo", 0x000D, 0x4D00),
        ("nü", 0x000D, 0x1300),
        ("nüe", 0x000D, 0x7000),
        ("o", 0x0002, 0x0D00),
        ("ou", 0x0002, 0x0F00),
        ("pa", 0x000E, 0x0300),
        ("pai", 0x000E, 0x0400),
        ("pan", 0x000E, 0x0500),
        ("pang", 0x000E, 0x0600),
        ("pao", 0x000E, 0x0700),
        ("pei", 0x000E, 0x0900),
        ("pen", 0x000E, 0x0A00),
        ("peng", 0x000E, 0x0B00),
        ("pi", 0x000E, 0x1100),
        ("pia", 0x000E, 0x2300),
        ("pian", 0x000E, 0x2500),
        ("piao", 0x000E, 0x2700),
        ("pie", 0x000E, 0x3000),
        ("pin", 0x000E, 0x2A00),
        ("ping", 0x000E, 0x2B00),
        ("po", 0x000E, 0x0D00),
        ("pou", 0x000E, 0x0F00),
        ("pu", 0x000E, 0x1200),
        ("qi", 0x000F, 0x1100),
        ("qia", 0x000F, 0x2300),
        ("qian", 0x000F, 0x2500),
        ("qiang", 0x000F, 0x2600),
        ("qiao", 0x000F, 0x2700),
        ("qie", 0x000F, 0x3000),
        ("qin", 0x000F, 0x2A00),
        ("qing", 0x000F, 0x2B00),
        ("qiong", 0x000F, 0x2E00),
        ("qiu", 0x000F, 0x2F00),
        ("qu", 0x000F, 0x1300),
        ("quan", 0x000F, 0x6500),
        ("que", 0x000F, 0x7000),
        ("qun", 0x000F, 0x6A00),
        ("ran", 0x0010, 0x0500),
        ("rang", 0x0010, 0x0600),
        ("rao", 0x0010, 0x0700),
        ("re", 0x0010, 0x0800),
        ("ren", 0x0010, 0x0A00),
        ("reng", 0x0010, 0x0B00),
        ("ri", 0x0010, 0x3100),
        ("rong", 0x0010, 0x0E00),
        ("rou", 0x0010, 0x0F00),
        ("ru", 0x0010, 0x1200),
        ("rua", 0x0010, 0x4300),
        ("ruan", 0x0010, 0x4500),
        ("rui", 0x0010, 0x4900),
        ("run", 0x0010, 0x4A00),
        ("ruo", 0x0010, 0x4D00),
        ("sa", 0x0011, 0x0300),
        ("sai", 0x0011, 0x0400),
        ("san", 0x0011, 0x0500),
        ("sang", 0x0011, 0x0600),
        ("sao", 0x0011, 0x0700),
        ("se", 0x0011, 0x0800),
        ("sei", 0x0011, 0x0900),
        ("sen", 0x0011, 0x0A00),
        ("seng", 0x0011, 0x0B00),
        ("sha", 0x8011, 0x0300),
        ("shai", 0x8011, 0x0400),
        ("shan", 0x8011, 0x0500),
        ("shang", 0x8011, 0x0600),
        ("shao", 0x8011, 0x0700),
        ("she", 0x8011, 0x0800),
        ("shei", 0x8011, 0x0900),
        ("shen", 0x8011, 0x0A00),
        ("sheng", 0x8011, 0x0B00),
        ("shi", 0x8011, 0x3100),
        ("shou", 0x8011, 0x0F00),
        ("shu", 0x8011, 0x1200),
        ("shua", 0x8011, 0x4300),
        ("shuai", 0x8011, 0x4400),
        ("shuan", 0x8011, 0x4500),
        ("shuang", 0x8011, 0x4600),
        ("shui", 0x8011, 0x4900),
        ("shun", 0x8011, 0x4A00),
        ("shuo", 0x8011, 0x4D00),
        ("si", 0x0011, 0x5100),
        ("song", 0x0011, 0x0E00),
        ("sou", 0x0011, 0x0F00),
        ("su", 0x0011, 0x1200),
        ("suan", 0x0011, 0x4500),
        ("sui", 0x0011, 0x4900),
        ("sun", 0x0011, 0x4A00),
        ("suo", 0x0011, 0x4D00),
        ("ta", 0x0012, 0x0300),
        ("tai", 0x0012, 0x0400),
        ("tan", 0x0012, 0x0500),
        ("tang", 0x0012, 0x0600),
        ("tao", 0x0012, 0x0700),
        ("te", 0x0012, 0x0800),
        ("tei", 0x0012, 0x0900),
        ("teng", 0x0012, 0x0B00),
        ("ti", 0x0012, 0x1100),
        ("tian", 0x0012, 0x2500),
        ("tiao", 0x0012, 0x2700),
        ("tie", 0x0012, 0x3000),
        ("ting", 0x0012, 0x2B00),
        ("tong", 0x0012, 0x0E00),
        ("tou", 0x0012, 0x0F00),
        ("tu", 0x0012, 0x1200),
        ("tuan", 0x0012, 0x4500),
        ("tui", 0x0012, 0x4900),
        ("tun", 0x0012, 0x4A00),
        ("tuo", 0x0012, 0x4D00),
        ("wa", 0x0013, 0x4300),
        ("wai", 0x0013, 0x4400),
        ("wan", 0x0013, 0x4500),
        ("wang", 0x0013, 0x4600),
        ("wei", 0x0013, 0x4900),
        ("wen", 0x0013, 0x4A00),
        ("weng", 0x0013, 0x4B00),
        ("wo", 0x0013, 0x4D00),
        ("wu", 0x0013, 0x1200),
        ("xi", 0x0014, 0x1100),
        ("xia", 0x0014, 0x2300),
        ("xian", 0x0014, 0x2500),
        ("xiang", 0x0014, 0x2600),
        ("xiao", 0x0014, 0x2700),
        ("xie", 0x0014, 0x3000),
        ("xin", 0x0014, 0x2A00),
        ("xing", 0x0014, 0x2B00),
        ("xiong", 0x0014, 0x2E00),
        ("xiu", 0x0014, 0x2F00),
        ("xu", 0x0014, 0x1300),
        ("xuan", 0x0014, 0x6500),
        ("xue", 0x0014, 0x7000),
        ("xun", 0x0014, 0x6A00),
        ("ya", 0x0015, 0x2300),
        ("yai", 0x0015, 0x2400),
        ("yan", 0x0015, 0x2500),
        ("yang", 0x0015, 0x2600),
        ("yao", 0x0015, 0x2700),
        ("ye", 0x0015, 0x3000),
        ("yi", 0x0015, 0x1100),
        ("yin", 0x0015, 0x2A00),
        ("ying", 0x0015, 0x2B00),
        ("yo", 0x0015, 0x2D00),
        ("yong", 0x0015, 0x2E00),
        ("you", 0x0015, 0x2F00),
        ("yu", 0x0015, 0x1300),
        ("yuan", 0x0015, 0x6500),
        ("yue", 0x0015, 0x7000),
        ("yun", 0x0015, 0x6A00),
        ("za", 0x0016, 0x0300),
        ("zai", 0x0016, 0x0400),
        ("zan", 0x0016, 0x0500),
        ("zang", 0x0016, 0x0600),
        ("zao", 0x0016, 0x0700),
        ("ze", 0x0016, 0x0800),
        ("zei", 0x0016, 0x0900),
        ("zen", 0x0016, 0x0A00),
        ("zeng", 0x0016, 0x0B00),
        ("zha", 0x8016, 0x0300),
        ("zhai", 0x8016, 0x0400),
        ("zhan", 0x8016, 0x0500),
        ("zhang", 0x8016, 0x0600),
        ("zhao", 0x8016, 0x0700),
        ("zhe", 0x8016, 0x0800),
        ("zhei", 0x8016, 0x0900),
        ("zhen", 0x8016, 0x0A00),
        ("zheng", 0x8016, 0x0B00),
        ("zhi", 0x8016, 0x3100),
        ("zhong", 0x8016, 0x0E00),
        ("zhou", 0x8016, 0x0F00),
        ("zhu", 0x8016, 0x1200),
        ("zhua", 0x8016, 0x4300),
        ("zhuai", 0x8016, 0x4400),
        ("zhuan", 0x8016, 0x4500),
        ("zhuang", 0x8016, 0x4600),
        ("zhui", 0x8016, 0x4900),
        ("zhun", 0x8016, 0x4A00),
        ("zhuo", 0x8016, 0x4D00),
        ("zi", 0x0016, 0x5100),
        ("zong", 0x0016, 0x0E00),
        ("zou", 0x0016, 0x0F00),
        ("zu", 0x0016, 0x1200),
        ("zuan", 0x0016, 0x4500),
        ("zui", 0x0016, 0x4900),
        ("zun", 0x0016, 0x4A00),
        ("zuo", 0x0016, 0x4D00),
        ("ê", 0x0002, 0x1000),
    ]
}

/// The canonical spelling of each packed syllable, in ascending order.
fn spellings() -> Vec<(u16, &'static str)> {
    vec![
        (0x0302, "a"),
        (0x0303, "ba"),
        (0x0304, "ca"),
        (0x0305, "da"),
        (0x0306, "fa"),
        (0x0307, "ga"),
        (0x0308, "ha"),
        (0x030A, "ka"),
        (0x030B, "la"),
        (0x030C, "ma"),
        (0x030D, "na"),
        (0x030E, "pa"),
        (0x0311, "sa"),
        (0x0312, "ta"),
        (0x0316, "za"),
        (0x0402, "ai"),
        (0x0403, "bai"),
        (0x0404, "cai"),
        (0x0405, "dai"),
        (0x0407, "gai"),
        (0x0408, "hai"),
        (0x040A, "kai"),
        (0x040B, "lai"),
        (0x040C, "mai"),
        (0x040D, "nai"),
        (0x040E, "pai"),
        (0x0411, "sai"),
        (0x0412, "tai"),
        (0x0416, "zai"),
        (0x0502, "an"),
        (0x0503, "ban"),
        (0x0504, "can"),
        (0x0505, "dan"),
        (0x0506, "fan"),
        (0x0507, "gan"),
        (0x0508, "han"),
        (0x050A, "kan"),
        (0x050B, "lan"),
        (0x050C, "man"),
        (0x050D, "nan"),
        (0x050E, "pan"),
        (0x0510, "ran"),
        (0x0511, "san"),
        (0x0512, "tan"),
        (0x0516, "zan"),
        (0x0602, "ang"),
        (0x0603, "bang"),
        (0x0604, "cang"),
        (0x0605, "dang"),
        (0x0606, "fang"),
        (0x0607, "gang"),
        (0x0608, "hang"),
        (0x060A, "kang"),
        (0x060B, "lang"),
        (0x060C, "mang"),
        (0x060D, "nang"),
        (0x060E, "pang"),
        (0x0610, "rang"),
        (0x0611, "sang"),
        (0x0612, "tang"),
        (0x0616, "zang"),
        (0x0702, "ao"),
        (0x0703, "bao"),
        (0x0704, "cao"),
        (0x0705, "dao"),
        (0x0707, "gao"),
        (0x0708, "hao"),
        (0x070A, "kao"),
        (0x070B, "lao"),
        (0x070C, "mao"),
        (0x070D, "nao"),
        (0x070E, "pao"),
        (0x0710, "rao"),
        (0x0711, "sao"),
        (0x0712, "tao"),
        (0x0716, "zao"),
        (0x0802, "e"),
        (0x0804, "ce"),
        (0x0805, "de"),
        (0x0807, "ge"),
        (0x0808, "he"),
        (0x080A, "ke"),
        (0x080B, "le"),
        (0x080C, "me"),
        (0x080D, "ne"),
        (0x0810, "re"),
        (0x0811, "se"),
        (0x0812, "te"),
        (0x0816, "ze"),
        (0x0902, "ei"),
        (0x0903, "bei"),
        (0x0904, "cei"),
        (0x0905, "dei"),
        (0x0906, "fei"),
        (0x0907, "gei"),
        (0x0908, "hei"),
        (0x090A, "kei"),
        (0x090B, "lei"),
        (0x090C, "mei"),
        (0x090D, "nei"),
        (0x090E, "pei"),
        (0x0911, "sei"),
        (0x0912, "tei"),
        (0x0916, "zei"),
        (0x0A02, "en"),
        (0x0A03, "ben"),
        (0x0A04, "cen"),
        (0x0A05, "den"),
        (0x0A06, "fen"),
        (0x0A07, "gen"),
        (0x0A08, "hen"),
        (0x0A0A, "ken"),
        (0x0A0C, "men"),
        (0x0A0D, "nen"),
        (0x0A0E, "pen"),
        (0x0A10, "ren"),
        (0x0A11, "sen"),
        (0x0A16, "zen"),
        (0x0B02, "eng"),
        (0x0B03, "beng"),
        (0x0B04, "ceng"),
        (0x0B05, "deng"),
        (0x0B06, "feng"),
        (0x0B07, "geng"),
        (0x0B08, "heng"),
        (0x0B0A, "keng"),
        (0x0B0B, "leng"),
        (0x0B0C, "meng"),
        (0x0B0D, "neng"),
        (0x0B0E, "peng"),
        (0x0B10, "reng"),
        (0x0B11, "seng"),
        (0x0B12, "teng"),
        (0x0B16, "zeng"),
        (0x0C02, "er"),
        (0x0D02, "o"),
        (0x0D03, "bo"),
        (0x0D06, "fo"),
        (0x0D0B, "lo"),
        (0x0D0C, "mo"),
        (0x0D0E, "po"),
        (0x0E04, "cong"),
        (0x0E05, "dong"),
        (0x0E06, "fong"),
        (0x0E07, "gong"),
        (0x0E08, "hong"),
        (0x0E0A, "kong"),
        (0x0E0B, "long"),
        (0x0E0D, "nong"),
        (0x0E10, "rong"),
        (0x0E11, "song"),
        (0x0E12, "tong"),
        (0x0E16, "zong"),
        (0x0F02, "ou"),
        (0x0F04, "cou"),
        (0x0F05, "dou"),
        (0x0F06, "fou"),
        (0x0F07, "gou"),
        (0x0F08, "hou"),
        (0x0F0A, "kou"),
        (0x0F0B, "lou"),
        (0x0F0C, "mou"),
        (0x0F0D, "nou"),
        (0x0F0E, "pou"),
        (0x0F10, "rou"),
        (0x0F11, "sou"),
        (0x0F12, "tou"),
        (0x0F16, "zou"),
        (0x1002, "ê"),
        (0x1103, "bi"),
        (0x1105, "di"),
        (0x1109, "ji"),
        (0x110B, "li"),
        (0x110C, "mi"),
        (0x110D, "ni"),
        (0x110E, "pi"),
        (0x110F, "qi"),
        (0x1112, "ti"),
        (0x1114, "xi"),
        (0x1115, "yi"),
        (0x1203, "bu"),
        (0x1204, "cu"),
        (0x1205, "du"),
        (0x1206, "fu"),
        (0x1207, "gu"),
        (0x1208, "hu"),
        (0x120A, "ku"),
        (0x120B, "lu"),
        (0x120C, "mu"),
        (0x120D, "nu"),
        (0x120E, "pu"),
        (0x1210, "ru"),
        (0x1211, "su"),
        (0x1212, "tu"),
        (0x1213, "wu"),
        (0x1216, "zu"),
        (0x1309, "ju"),
        (0x130B, "lü"),
        (0x130D, "nü"),
        (0x130F, "qu"),
        (0x1314, "xu"),
        (0x1315, "yu"),
        (0x2305, "dia"),
        (0x2309, "jia"),
        (0x230B, "lia"),
        (0x230D, "nia"),
        (0x230E, "pia"),
        (0x230F, "qia"),
        (0x2314, "xia"),
        (0x2315, "ya"),
        (0x2415, "yai"),
        (0x2503, "bian"),
        (0x2505, "dian"),
        (0x2509, "jian"),
        (0x250B, "lian"),
        (0x250C, "mian"),
        (0x250D, "nian"),
        (0x250E, "pian"),
        (0x250F, "qian"),
        (0x2512, "tian"),
        (0x2514, "xian"),
        (0x2515, "yan"),
        (0x2603, "biang"),
        (0x2609, "jiang"),
        (0x260B, "liang"),
        (0x260D, "niang"),
        (0x260F, "qiang"),
        (0x2614, "xiang"),
        (0x2615, "yang"),
        (0x2703, "biao"),
        (0x2705, "diao"),
        (0x2706, "fiao"),
        (0x2709, "jiao"),
        (0x270B, "liao"),
        (0x270C, "miao"),
        (0x270D, "niao"),
        (0x270E, "piao"),
        (0x270F, "qiao"),
        (0x2712, "tiao"),
        (0x2714, "xiao"),
        (0x2715, "yao"),
        (0x2A03, "bin"),
        (0x2A05, "din"),
        (0x2A09, "jin"),
        (0x2A0B, "lin"),
        (0x2A0C, "min"),
        (0x2A0D, "nin"),
        (0x2A0E, "pin"),
        (0x2A0F, "qin"),
        (0x2A14, "xin"),
        (0x2A15, "yin"),
        (0x2B03, "bing"),
        (0x2B05, "ding"),
        (0x2B09, "jing"),
        (0x2B0B, "ling"),
        (0x2B0C, "ming"),
        (0x2B0D, "ning"),
        (0x2B0E, "ping"),
        (0x2B0F, "qing"),
        (0x2B12, "ting"),
        (0x2B14, "xing"),
        (0x2B15, "ying"),
        (0x2D15, "yo"),
        (0x2E09, "jiong"),
        (0x2E0F, "qiong"),
        (0x2E14, "xiong"),
        (0x2E15, "yong"),
        (0x2F05, "diu"),
        (0x2F09, "jiu"),
        (0x2F0B, "liu"),
        (0x2F0C, "miu"),
        (0x2F0D, "niu"),
        (0x2F0F, "qiu"),
        (0x2F14, "xiu"),
        (0x2F15, "you"),
        (0x3003, "bie"),
        (0x3005, "die"),
        (0x3009, "jie"),
        (0x300B, "lie"),
        (0x300C, "mie"),
        (0x300D, "nie"),
        (0x300E, "pie"),
        (0x300F, "qie"),
        (0x3012, "tie"),
        (0x3014, "xie"),
        (0x3015, "ye"),
        (0x3110, "ri"),
        (0x4307, "gua"),
        (0x4308, "hua"),
        (0x430A, "kua"),
        (0x4310, "rua"),
        (0x4313, "wa"),
        (0x4407, "guai"),
        (0x4408, "huai"),
        (0x440A, "kuai"),
        (0x4413, "wai"),
        (0x4504, "cuan"),
        (0x4505, "duan"),
        (0x4507, "guan"),
        (0x4508, "huan"),
        (0x450A, "kuan"),
        (0x450B, "luan"),
        (0x450D, "nuan"),
        (0x4510, "ruan"),
        (0x4511, "suan"),
        (0x4512, "tuan"),
        (0x4513, "wan"),
        (0x4516, "zuan"),
        (0x4607, "guang"),
        (0x4608, "huang"),
        (0x460A, "kuang"),
        (0x4613, "wang"),
        (0x4904, "cui"),
        (0x4905, "dui"),
        (0x4907, "gui"),
        (0x4908, "hui"),
        (0x490A, "kui"),
        (0x4910, "rui"),
        (0x4911, "sui"),
        (0x4912, "tui"),
        (0x4913, "wei"),
        (0x4916, "zui"),
        (0x4A04, "cun"),
        (0x4A05, "dun"),
        (0x4A07, "gun"),
        (0x4A08, "hun"),
        (0x4A0A, "kun"),
        (0x4A0B, "lun"),
        (0x4A0D, "nun"),
        (0x4A10, "run"),
        (0x4A11, "sun"),
        (0x4A12, "tun"),
        (0x4A13, "wen"),
        (0x4A16, "zun"),
        (0x4B13, "weng"),
        (0x4D04, "cuo"),
        (0x4D05, "duo"),
        (0x4D07, "guo"),
        (0x4D08, "huo"),
        (0x4D0A, "kuo"),
        (0x4D0B, "luo"),
        (0x4D0D, "nuo"),
        (0x4D10, "ruo"),
        (0x4D11, "suo"),
        (0x4D12, "tuo"),
        (0x4D13, "wo"),
        (0x4D16, "zuo"),
        (0x5104, "ci"),
        (0x5111, "si"),
        (0x5116, "zi"),
        (0x6509, "juan"),
        (0x650B, "lüan"),
        (0x650F, "quan"),
        (0x6514, "xuan"),
        (0x6515, "yuan"),
        (0x6A09, "jun"),
        (0x6A0B, "lün"),
        (0x6A0F, "qun"),
        (0x6A14, "xun"),
        (0x6A15, "yun"),
        (0x7009, "jue"),
        (0x700B, "lüe"),
        (0x700D, "nüe"),
        (0x700F, "que"),
        (0x7014, "xue"),
        (0x7015, "yue"),
        (0x820C, "m"),
        (0x820D, "n"),
        (0x8304, "cha"),
        (0x8311, "sha"),
        (0x8316, "zha"),
        (0x8404, "chai"),
        (0x8411, "shai"),
        (0x8416, "zhai"),
        (0x8504, "chan"),
        (0x8511, "shan"),
        (0x8516, "zhan"),
        (0x8604, "chang"),
        (0x8611, "shang"),
        (0x8616, "zhang"),
        (0x8704, "chao"),
        (0x8711, "shao"),
        (0x8716, "zhao"),
        (0x8804, "che"),
        (0x8811, "she"),
        (0x8816, "zhe"),
        (0x8911, "shei"),
        (0x8916, "zhei"),
        (0x8A04, "chen"),
        (0x8A11, "shen"),
        (0x8A16, "zhen"),
        (0x8B04, "cheng"),
        (0x8B11, "sheng"),
        (0x8B16, "zheng"),
        (0x8E04, "chong"),
        (0x8E16, "zhong"),
        (0x8F04, "chou"),
        (0x8F11, "shou"),
        (0x8F16, "zhou"),
        (0x9204, "chu"),
        (0x9211, "shu"),
        (0x9216, "zhu"),
        (0x9408, "hm"),
        (0x9508, "hng"),
        (0x950D, "ng"),
        (0xB104, "chi"),
        (0xB111, "shi"),
        (0xB116, "zhi"),
        (0xC304, "chua"),
        (0xC311, "shua"),
        (0xC316, "zhua"),
        (0xC404, "chuai"),
        (0xC411, "shuai"),
        (0xC416, "zhuai"),
        (0xC504, "chuan"),
        (0xC511, "shuan"),
        (0xC516, "zhuan"),
        (0xC604, "chuang"),
        (0xC611, "shuang"),
        (0xC616, "zhuang"),
        (0xC904, "chui"),
        (0xC911, "shui"),
        (0xC916, "zhui"),
        (0xCA04, "chun"),
        (0xCA11, "shun"),
        (0xCA16, "zhun"),
        (0xCD04, "chuo"),
        (0xCD11, "shuo"),
        (0xCD16, "zhuo"),
    ]
}

/// The 声母 codes by name.
fn initials() -> Vec<(&'static str, u16)> {
    vec![
        ("H", 0x8008),
        ("M", 0x800C),
        ("N", 0x800D),
        ("R", 0x8010),
        ("b", 0x0003),
        ("c", 0x0004),
        ("ch", 0x8004),
        ("d", 0x0005),
        ("f", 0x0006),
        ("g", 0x0007),
        ("h", 0x0008),
        ("j", 0x0009),
        ("k", 0x000A),
        ("l", 0x000B),
        ("m", 0x000C),
        ("n", 0x000D),
        ("p", 0x000E),
        ("q", 0x000F),
        ("r", 0x0010),
        ("s", 0x0011),
        ("sh", 0x8011),
        ("t", 0x0012),
        ("w", 0x0013),
        ("x", 0x0014),
        ("y", 0x0015),
        ("z", 0x0016),
        ("zh", 0x8016),
    ]
}

/// The 韵母 codes by phonemic name.
fn finals() -> Vec<(&'static str, u16)> {
    vec![
        ("a", 0x0300),
        ("ai", 0x0400),
        ("an", 0x0500),
        ("ang", 0x0600),
        ("ao", 0x0700),
        ("e", 0x0800),
        ("eh", 0x1000),
        ("ei", 0x0900),
        ("en", 0x0A00),
        ("eng", 0x0B00),
        ("er", 0x0C00),
        ("i", 0x1100),
        ("ia", 0x2300),
        ("iai", 0x2400),
        ("ian", 0x2500),
        ("iang", 0x2600),
        ("iao", 0x2700),
        ("ieh", 0x3000),
        ("ien", 0x2A00),
        ("ieng", 0x2B00),
        ("ii", 0x5100),
        ("io", 0x2D00),
        ("iong", 0x2E00),
        ("iou", 0x2F00),
        ("m", 0x1400),
        ("ng", 0x1500),
        ("o", 0x0D00),
        ("ong", 0x0E00),
        ("ou", 0x0F00),
        ("ri", 0x3100),
        ("u", 0x1200),
        ("ua", 0x4300),
        ("uai", 0x4400),
        ("uan", 0x4500),
        ("uang", 0x4600),
        ("uei", 0x4900),
        ("uen", 0x4A00),
        ("ueng", 0x4B00),
        ("uo", 0x4D00),
        ("v", 0x1300),
        ("van", 0x6500),
        ("veh", 0x7000),
        ("ven", 0x6A00),
    ]
}
