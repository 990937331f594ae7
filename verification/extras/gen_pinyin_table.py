#!/usr/bin/env python3
"""Write the tables of syllables, spellings, initials and finals into Rust files.

    python3 extras/gen_pinyin_table.py app/pinyin_data.rs tests/inventory.rs

The tables take the place of everything after the line that starts them. In tests they
are functions, elsewhere constants.

A code is the field value as it sits in the packed syllable:

    bit 15      initial variant-select
    bit 14..13  final variant-select
    bit 12..8   final base
    bit  7..5   tone
    bit  4..0   initial base

Bases are numbered from 2, in alphabetical order; 0 is "not given" and 1 is
"explicitly free". Base 2 is the empty initial or final.
"""
import sys

INITIAL_BASES = ["", *"bcdfghjklmnpqrstwxyz"]
INITIALS = {name: 2 + i for i, name in enumerate(INITIAL_BASES)}
for base in "csz":
    INITIALS[base + "h"] = 0x8000 | INITIALS[base]
for base in "hrmn":
    INITIALS[base.upper()] = 0x8000 | INITIALS[base]

# Finals with no medial come first. The medials i, u and v select the variant of
# the rest of the final.
FINAL_BASES = [
    "", "a", "ai", "an", "ang", "ao", "e", "ei", "en", "eng", "er", "o", "ong", "ou",
    "eh", "i", "u", "v", "m", "ng",
]
FINALS = {name: (2 + i) << 8 for i, name in enumerate(FINAL_BASES)}
I_MEDIAL = ["a", "ai", "an", "ang", "ao", "en", "eng", "o", "ong", "ou", "eh"]
U_MEDIAL = ["a", "ai", "an", "ang", "ei", "en", "eng", "o"]
V_MEDIAL = ["an", "en", "eh"]
for variant, medial, rests in ((1, "i", I_MEDIAL), (2, "u", U_MEDIAL), (3, "v", V_MEDIAL)):
    for rest in rests:
        FINALS[medial + rest] = variant << 13 | FINALS[rest]
FINALS["ri"] = 1 << 13 | FINALS["i"]
FINALS["ii"] = 2 << 13 | FINALS["i"]

PHONEMIC = {
    "iu": "iou", "ui": "uei", "in": "ien", "un": "uen", "ing": "ieng", "ie": "ieh",
    "ê": "eh", "ü": "v", "üe": "veh", "üan": "van", "ün": "ven",
}

# The inventory, as written finals by written initial.
INVENTORY = {
    "": "a ai an ang ao e ei en eng er o ou ê",
    "b": "a ai an ang ao ei en eng i ian iang iao ie in ing o u",
    "p": "a ai an ang ao ei en eng i ia ian iao ie in ing o ou u",
    "m": "a ai an ang ao e ei en eng i ian iao ie in ing iu o ou u",
    "f": "a an ang ei en eng iao o ong ou u",
    "d": "a ai an ang ao e ei en eng i ia ian iao ie in ing iu ong ou u uan ui un uo",
    "t": "a ai an ang ao e ei eng i ian iao ie ing ong ou u uan ui un uo",
    "n": "a ai an ang ao e ei en eng i ia ian iang iao ie in ing iu ong ou u uan un uo ü üe",
    "l": "a ai an ang ao e ei eng i ia ian iang iao ie in ing iu o ong ou u uan un uo ü üan üe ün",
    "g": "a ai an ang ao e ei en eng ong ou u ua uai uan uang ui un uo",
    "k": "a ai an ang ao e ei en eng ong ou u ua uai uan uang ui un uo",
    "h": "a ai an ang ao e ei en eng ong ou u ua uai uan uang ui un uo",
    "j": "i ia ian iang iao ie in ing iong iu u uan ue un",
    "q": "i ia ian iang iao ie in ing iong iu u uan ue un",
    "x": "i ia ian iang iao ie in ing iong iu u uan ue un",
    "zh": "a ai an ang ao e ei en eng i ong ou u ua uai uan uang ui un uo",
    "ch": "a ai an ang ao e en eng i ong ou u ua uai uan uang ui un uo",
    "sh": "a ai an ang ao e ei en eng i ou u ua uai uan uang ui un uo",
    "r": "an ang ao e en eng i ong ou u ua uan ui un uo",
    "z": "a ai an ang ao e ei en eng i ong ou u uan ui un uo",
    "c": "a ai an ang ao e ei en eng i ong ou u uan ui un uo",
    "s": "a ai an ang ao e ei en eng i ong ou u uan ui un uo",
    "y": "a ai an ang ao e i in ing o ong ou u uan ue un",
    "w": "a ai an ang ei en eng o u",
}

# The syllabic nasals stand on the special initials.
NASALS = {"m": ("M", ""), "n": ("N", ""), "ng": ("N", "ng"), "hm": ("H", "m"), "hng": ("H", "ng")}


def phonemic_final(initial, final):
    """The phonemic final of a written one."""
    if final == "i" and initial in ("zh", "ch", "sh", "r"):
        return "ri"
    if final == "i" and initial in ("z", "c", "s"):
        return "ii"
    if initial in ("j", "q", "x") and final[0] == "u":
        final = "ü" + final[1:]
    if initial == "y":
        if final[0] == "u":
            final = "ü" + final[1:]
        elif final == "e":
            final = "ie"
        elif final == "ou":
            return "iou"
        elif final[0] != "i":
            final = "i" + final
    if initial == "w":
        if final == "ei":
            return "uei"
        if final in ("en", "eng"):
            return "u" + final
        if final[0] != "u":
            final = "u" + final
    return PHONEMIC.get(final, final)


def syllables():
    """Every written syllable with its two codes."""
    rows = {}
    for initial, finals in INVENTORY.items():
        for final in finals.split():
            rows[initial + final] = (INITIALS[initial], FINALS[phonemic_final(initial, final)])
    for name, (initial, final) in NASALS.items():
        rows[name] = (INITIALS[initial], FINALS[final])
    return rows


START = "// --- the tables: printed by extras/gen_pinyin_table.py"


def tables():
    """The four tables: what each holds, its name, the type of a row, and the rows."""
    rows = syllables()
    spellings = {}
    for name, (initial, final) in rows.items():
        if spellings.setdefault(initial | final, name) != name:
            raise SystemExit(f"{name} and {spellings[initial | final]} share a code")
    return [
        (
            "Toneless written syllables in code point order, with 声母 and 韵母 codes.",
            "SYLLABLES", "({}, u16, u16)",
            [f'("{n}", 0x{i:04X}, 0x{f:04X})' for n, (i, f) in sorted(rows.items())],
        ),
        (
            "The canonical spelling of each packed syllable, in ascending order.",
            "SPELLINGS", "(u16, {})",
            [f'(0x{k:04X}, "{n}")' for k, n in sorted(spellings.items())],
        ),
        (
            "The 声母 codes by name.",
            "INITIALS", "({}, u16)",
            [f'("{n}", 0x{c:04X})' for n, c in sorted(INITIALS.items()) if n],
        ),
        (
            "The 韵母 codes by phonemic name.",
            "FINALS", "({}, u16)",
            [f'("{n}", 0x{c:04X})' for n, c in sorted(FINALS.items()) if n],
        ),
    ]


def as_constant(doc, name, kind, rows):
    kind = kind.format("&str")
    return [f"/// {doc}", f"pub const {name}: &[{kind}] = &[", *(f"    {r}," for r in rows), "];"]


def as_function(doc, name, kind, rows):
    kind = kind.format("&'static str")
    return [
        f"/// {doc}", f"fn {name.lower()}() -> Vec<{kind}> {{", "    vec![",
        *(f"        {r}," for r in rows), "    ]", "}",
    ]


def main(targets):
    for target in targets:
        with open(target, encoding="utf-8") as file:
            head = file.read().partition(START)[0]
        write = as_function if "tests/" in target else as_constant
        parts = ["\n".join(write(*table)) for table in tables()]
        with open(target, "w", encoding="utf-8") as file:
            file.write(head + START + "\n\n" + "\n\n".join(parts) + "\n")


if __name__ == "__main__":
    main(sys.argv[1:])
