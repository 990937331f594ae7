# duck_pinyin

A DuckDB extension that adds a `PINYIN` column type and `pinyin_match`, for filtering
Chinese text by how it sounds rather than how it is written. The logic is a library
verified with Verus; the extension around it is ordinary Rust.

A syllable is packed into a `u16` with three bit fields:

```
bit 15      声母 variant-select   (turns c/s/z into ch/sh/zh, and selects H/R/M/N)
bit 14..13  韵母 variant-select
bit 12..8   韵母 base
bit  7..5   声调
bit  4..0   声母 base
```

`'zhong'`, `'zhong1'` and `'zhōng'` are read, and the case of the letters of ASCII and
of pinyin makes no difference; rendering gives the canonical spelling with its tone
mark, and is the inverse of reading. A pattern is a
syllable in which any part may be a wildcard or left out, and compiles to one masked
compare. A pattern of several words matches a list of syllables, with `**` for any
number of them.

## Layout

- `src/` is the verified library. `src/lib.rs` lists its modules. Each function states
  in `ensures` what it returns; `src/laws.rs` and the functions named `law_*` beside
  the code state what holds between them.
- `tests/` runs the library.
- `app/` is the extension: registration, casts and `pinyin_match` over DuckDB vectors,
  and the tables of syllables (`app/pinyin_data.rs`).
- `extras/gen_pinyin_table.py` holds the inventory of syllables and the numbering of
  the codes, and prints the tables, for the extension and for `tests/inventory.rs`,
  which runs them through the library.

The library is written for every set of tables that holds together and is one of
standard pinyin. The first is what `TableModel::valid` says: syllables in alphabetical
order, spellings in order of their code, each spelling reading back as the code it
spells, and a spelling for every syllable. The second is what `src/standard.rs` says:
the codes that queries are written with, the variants `ch`, `sh` and `zh`, the split by
sound, and the 声母 that each syllable is written with. `Tables::new` checks both, so
that they hold of every `Tables`.

## What is trusted

Three functions of the standard library are taken at their word, in `src/text.rs`:
`char::is_whitespace`, `String::push` and `str::to_lowercase`. The lower-case form is
spelled out for ASCII and the letters of pinyin; for other text it is some function of
the text, the same for either case of those letters.
