//! The tables of syllables, spellings, 声母 and 韵母.
//!
//! The tables are data, generated from an inventory of syllables; the library is
//! written for every set of tables that holds together and holds what the tables of
//! standard pinyin hold, as [`crate::standard`] says.
use crate::fields::{
    is_final_code, is_initial_code, syllable_of, Final, Initial, SYLLABLE_MASK,
};
use crate::standard::{check_standard, is_standard};
use crate::text::{
    chars_of, comes_before, lemma_order_irreflexive, lemma_order_transitive, order_of, same_chars,
    Order,
};
use vstd::prelude::*;

verus! {

/// A letter that spellings are written with: `a` to `z` but for `v`, which only
/// ever stands in for `ü`; `ü`; and `ê`.
pub open spec fn is_spelling_letter(c: char) -> bool {
    ||| 'a' <= c <= 'z' && c != 'v'
    ||| c == 'ü'
    ||| c == 'ê'
}

/// A spelling: at least one letter, and nothing but letters.
pub open spec fn is_spelling(name: Seq<char>) -> bool {
    &&& name.len() > 0
    &&& forall|i: int| 0 <= i < name.len() ==> is_spelling_letter(#[trigger] name[i])
}

/// The first code that a list gives a name.
pub open spec fn code_named(rows: Seq<(Seq<char>, u16)>, name: Seq<char>) -> Option<u16>
    decreases rows.len(),
{
    if rows.len() == 0 {
        None
    } else if rows[0].0 == name {
        Some(rows[0].1)
    } else {
        code_named(rows.skip(1), name)
    }
}

/// What the tables hold.
pub struct TableModel {
    /// Toneless written syllables, each with its 声母 and 韵母 codes.
    pub syllables: Seq<(Seq<char>, u16, u16)>,
    /// The canonical toneless spelling of each packed syllable.
    pub spellings: Seq<(u16, Seq<char>)>,
    /// The 声母 codes by name.
    pub initials: Seq<(Seq<char>, u16)>,
    /// The 韵母 codes by phonemic name.
    pub finals: Seq<(Seq<char>, u16)>,
}

impl TableModel {
    /// Row `i` of the syllables is the one for `name`.
    pub open spec fn is_syllable_row(self, i: int, name: Seq<char>) -> bool {
        0 <= i < self.syllables.len() && self.syllables[i].0 == name
    }

    /// Row `i` of the spellings is the one for `key`.
    pub open spec fn is_spelling_row(self, i: int, key: u16) -> bool {
        0 <= i < self.spellings.len() && self.spellings[i].0 == key
    }

    /// The 声母 and 韵母 codes of a written syllable.
    pub open spec fn lookup(self, name: Seq<char>) -> Option<(u16, u16)> {
        if exists|i: int| self.is_syllable_row(i, name) {
            let i = choose|i: int| self.is_syllable_row(i, name);
            Some((self.syllables[i].1, self.syllables[i].2))
        } else {
            None
        }
    }

    /// Some syllable stands on a 声母.
    pub open spec fn uses_initial(self, code: u16) -> bool {
        exists|i: int| 0 <= i < self.syllables.len() && (#[trigger] self.syllables[i]).1 == code
    }

    /// The canonical spelling of a toneless packed syllable.
    pub open spec fn spelling(self, key: u16) -> Option<Seq<char>> {
        if exists|i: int| self.is_spelling_row(i, key) {
            Some(self.spellings[choose|i: int| self.is_spelling_row(i, key)].1)
        } else {
            None
        }
    }

    /// The canonical toneless spelling of a packed syllable, empty where it has
    /// none.
    pub open spec fn plain(self, value: u16) -> Seq<char> {
        match self.spelling(value & SYLLABLE_MASK) {
            Some(name) => name,
            None => Seq::empty(),
        }
    }

    /// The syllables are spellings in strict alphabetical order, with codes that
    /// fit their fields.
    pub open spec fn syllables_ordered(self) -> bool {
        &&& forall|i: int|
            0 <= i < self.syllables.len() ==> is_spelling((#[trigger] self.syllables[i]).0)
                && is_initial_code(self.syllables[i].1) && is_final_code(self.syllables[i].2)
        &&& forall|i: int, j: int|
            0 <= i < j < self.syllables.len() ==> comes_before(
                (#[trigger] self.syllables[i]).0,
                (#[trigger] self.syllables[j]).0,
            )
    }

    /// The spellings are in strictly ascending order of their packed syllable.
    pub open spec fn spellings_ordered(self) -> bool {
        forall|i: int, j: int|
            0 <= i < j < self.spellings.len() ==> (#[trigger] self.spellings[i]).0 < (
            #[trigger] self.spellings[j]).0
    }

    /// Every canonical spelling is a written syllable with the very codes it spells.
    #[verifier::opaque]
    pub open spec fn spellings_read_back(self) -> bool {
        forall|i: int|
            0 <= i < self.spellings.len() ==> {
                let (key, name) = #[trigger] self.spellings[i];
                self.lookup(name) matches Some((initial, final_)) && initial | final_ == key
            }
    }

    /// Every written syllable has a canonical spelling.
    #[verifier::opaque]
    pub open spec fn syllables_have_spellings(self) -> bool {
        forall|i: int|
            0 <= i < self.syllables.len() ==> self.spelling(
                (#[trigger] self.syllables[i]).1 | self.syllables[i].2,
            ) is Some
    }

    /// The codes that are given names fit their fields.
    pub open spec fn named_codes_fit(self) -> bool {
        &&& forall|i: int|
            0 <= i < self.initials.len() ==> is_initial_code((#[trigger] self.initials[i]).1)
        &&& forall|i: int|
            0 <= i < self.finals.len() ==> is_final_code((#[trigger] self.finals[i]).1)
    }

    /// The tables hold together.
    pub open spec fn valid(self) -> bool {
        &&& self.named_codes_fit()
        &&& self.syllables_ordered()
        &&& self.spellings_ordered()
        &&& self.spellings_read_back()
        &&& self.syllables_have_spellings()
    }
}

/// A row of the syllables is what its name is looked up as.
pub proof fn lemma_lookup_row(m: TableModel, i: int)
    requires
        m.syllables_ordered(),
        0 <= i < m.syllables.len(),
    ensures
        m.lookup(m.syllables[i].0) == Some((m.syllables[i].1, m.syllables[i].2)),
{
    let name = m.syllables[i].0;
    assert(m.is_syllable_row(i, name));
    let found = choose|k: int| m.is_syllable_row(k, name);
    lemma_order_irreflexive(name);
    assert(found == i) by {
        if found < i {
            assert(comes_before(m.syllables[found].0, m.syllables[i].0));
        } else if i < found {
            assert(comes_before(m.syllables[i].0, m.syllables[found].0));
        }
    }
}

/// A row of the spellings is what its packed syllable is spelled as.
pub proof fn lemma_spelling_row(m: TableModel, i: int)
    requires
        m.spellings_ordered(),
        0 <= i < m.spellings.len(),
    ensures
        m.spelling(m.spellings[i].0) == Some(m.spellings[i].1),
{
    let key = m.spellings[i].0;
    assert(m.is_spelling_row(i, key));
    let found = choose|k: int| m.is_spelling_row(k, key);
    assert(found == i);
}

/// What is looked up is a spelling, with codes that fit their fields.
pub proof fn lemma_lookup_fits(m: TableModel, name: Seq<char>)
    requires
        m.valid(),
    ensures
        m.lookup(name) matches Some((initial, final_)) ==> {
            &&& is_spelling(name)
            &&& is_initial_code(initial)
            &&& is_final_code(final_)
            &&& m.spelling(initial | final_) is Some
        },
{
    if m.lookup(name) is Some {
        reveal(TableModel::syllables_have_spellings);
        let i = choose|i: int| m.is_syllable_row(i, name);
        assert(m.is_syllable_row(i, name));
        let row = m.syllables[i];
        assert(m.spelling(row.1 | row.2) is Some);
    }
}

/// A code found by name is one of the codes in the list.
pub proof fn lemma_code_named_listed(rows: Seq<(Seq<char>, u16)>, name: Seq<char>)
    ensures
        code_named(rows, name) matches Some(code) ==> exists|i: int|
            0 <= i < rows.len() && (#[trigger] rows[i]).1 == code,
    decreases rows.len(),
{
    if rows.len() > 0 {
        lemma_code_named_listed(rows.skip(1), name);
        if rows[0].0 != name {
            if let Some(code) = code_named(rows, name) {
                let i = choose|i: int|
                    0 <= i < rows.skip(1).len() && (#[trigger] rows.skip(1)[i]).1 == code;
                assert(rows[i + 1].1 == code);
            }
        }
    }
}

/// The canonical spelling of a packed syllable looks up as that syllable.
pub proof fn lemma_spelling_reads_back(m: TableModel, key: u16)
    requires
        m.valid(),
    ensures
        m.spelling(key) matches Some(name) ==> (m.lookup(name) matches Some((initial, final_))
            && initial | final_ == key),
{
    if m.spelling(key) is Some {
        reveal(TableModel::spellings_read_back);
        let i = choose|i: int| m.is_spelling_row(i, key);
        assert(m.is_spelling_row(i, key));
        assert(m.spellings[i].0 == key);
    }
}

/// A written syllable is looked up as the codes of its row, and a name without a row is
/// not found.
pub proof fn law_lookup_is_a_row(m: TableModel, name: Seq<char>, initial: u16, final_: u16)
    requires
        m.syllables_ordered(),
    ensures
        m.lookup(name) == Some((initial, final_)) <==> exists|i: int|
            0 <= i < m.syllables.len() && #[trigger] m.syllables[i] == (name, initial, final_),
{
    if m.lookup(name) == Some((initial, final_)) {
        let i = choose|i: int| m.is_syllable_row(i, name);
        assert(m.is_syllable_row(i, name));
        assert(m.syllables[i] == (name, initial, final_));
    }
    if exists|i: int|
        0 <= i < m.syllables.len() && #[trigger] m.syllables[i] == (name, initial, final_) {
        let i = choose|i: int|
            0 <= i < m.syllables.len() && #[trigger] m.syllables[i] == (name, initial, final_);
        lemma_lookup_row(m, i);
    }
}

/// A packed syllable is spelled as its row says, whatever its tone, and one without a row
/// is spelled as nothing.
pub proof fn law_plain_is_a_row(m: TableModel, value: u16, name: Seq<char>)
    requires
        m.spellings_ordered(),
    ensures
        (exists|i: int|
            0 <= i < m.spellings.len() && #[trigger] m.spellings[i] == (value & 0xFF1F, name))
            ==> m.plain(value) == name,
        (forall|i: int|
            0 <= i < m.spellings.len() ==> (#[trigger] m.spellings[i]).0 != value & 0xFF1F)
            ==> m.plain(value).len() == 0,
{
    let key = value & 0xFF1F;
    if exists|i: int| 0 <= i < m.spellings.len() && #[trigger] m.spellings[i] == (key, name) {
        let i = choose|i: int|
            0 <= i < m.spellings.len() && #[trigger] m.spellings[i] == (key, name);
        lemma_spelling_row(m, i);
    }
    if forall|i: int| 0 <= i < m.spellings.len() ==> (#[trigger] m.spellings[i]).0 != key {
        assert forall|i: int| !m.is_spelling_row(i, key) by {}
    }
}

/// A name has the code of the first row with that name, and none where there is no such
/// row.
pub proof fn law_first_code_counts(rows: Seq<(Seq<char>, u16)>, name: Seq<char>, i: int)
    requires
        0 <= i <= rows.len(),
        forall|j: int| 0 <= j < i ==> (#[trigger] rows[j]).0 != name,
        i < rows.len() ==> rows[i].0 == name,
    ensures
        code_named(rows, name) == if i < rows.len() {
            Some(rows[i].1)
        } else {
            None
        },
    decreases rows.len(),
{
    if i > 0 {
        let rest = rows.skip(1);
        assert(rows[0].0 != name);
        assert forall|j: int| 0 <= j < i - 1 implies (#[trigger] rest[j]).0 != name by {
            assert(rest[j] == rows[j + 1]);
        }
        law_first_code_counts(rest, name, i - 1);
    }
}

/// Rows as they were given, whether or not they hold together.
pub(crate) struct Rows {
    syllables: Vec<(Vec<char>, Initial, Final)>,
    spellings: Vec<(u16, String)>,
    initials: Vec<(Vec<char>, Initial)>,
    finals: Vec<(Vec<char>, Final)>,
}

impl View for Rows {
    type V = TableModel;

    closed spec fn view(&self) -> TableModel {
        TableModel {
            syllables: Seq::new(
                self.syllables@.len(),
                |i: int| (self.syllables@[i].0@, self.syllables@[i].1@, self.syllables@[i].2@),
            ),
            spellings: Seq::new(
                self.spellings@.len(),
                |i: int| (self.spellings@[i].0, self.spellings@[i].1@),
            ),
            initials: Seq::new(
                self.initials@.len(),
                |i: int| (self.initials@[i].0@, self.initials@[i].1@),
            ),
            finals: Seq::new(
                self.finals@.len(),
                |i: int| (self.finals@[i].0@, self.finals@[i].1@),
            ),
        }
    }
}

/// What lists of rows hold, as tables.
pub open spec fn model_of_rows(
    syllables: Seq<(String, Initial, Final)>,
    spellings: Seq<(u16, String)>,
    initials: Seq<(String, Initial)>,
    finals: Seq<(String, Final)>,
) -> TableModel {
    TableModel {
        syllables: Seq::new(
            syllables.len(),
            |i: int| (syllables[i].0@, syllables[i].1@, syllables[i].2@),
        ),
        spellings: Seq::new(spellings.len(), |i: int| (spellings[i].0, spellings[i].1@)),
        initials: Seq::new(initials.len(), |i: int| (initials[i].0@, initials[i].1@)),
        finals: Seq::new(finals.len(), |i: int| (finals[i].0@, finals[i].1@)),
    }
}

/// The tables hold the rows as they were given, each in its place.
pub proof fn law_rows_are_kept(
    syllables: Seq<(String, Initial, Final)>,
    spellings: Seq<(u16, String)>,
    initials: Seq<(String, Initial)>,
    finals: Seq<(String, Final)>,
    i: int,
)
    ensures
        ({
            let m = model_of_rows(syllables, spellings, initials, finals);
            &&& m.syllables.len() == syllables.len()
            &&& m.spellings.len() == spellings.len()
            &&& m.initials.len() == initials.len()
            &&& m.finals.len() == finals.len()
            &&& 0 <= i < syllables.len() ==> m.syllables[i] == (
                syllables[i].0@,
                syllables[i].1@,
                syllables[i].2@,
            )
            &&& 0 <= i < spellings.len() ==> m.spellings[i] == (spellings[i].0, spellings[i].1@)
            &&& 0 <= i < initials.len() ==> m.initials[i] == (initials[i].0@, initials[i].1@)
            &&& 0 <= i < finals.len() ==> m.finals[i] == (finals[i].0@, finals[i].1@)
        }),
{
}

/// Whether `name` is a spelling.
fn check_spelling(name: &[char]) -> (r: bool)
    ensures
        r == is_spelling(name@),
{
    let mut i: usize = 0;
    while i < name.len()
        invariant
            i <= name.len(),
            forall|j: int| 0 <= j < i ==> is_spelling_letter(#[trigger] name@[j]),
        decreases name.len() - i,
    {
        let c: char = name[i];
        if !(('a' <= c && c <= 'z' && c != 'v') || c == 'ü' || c == 'ê') {
            assert(!is_spelling_letter(name@[i as int]));
            return false;
        }
        i = i + 1;
    }
    name.len() > 0
}

impl Rows {
    /// Look a name up by binary search.
    pub(crate) fn lookup(&self, name: &[char]) -> (r: Option<(Initial, Final)>)
        requires
            self@.syllables_ordered(),
        ensures
            match r {
                Some((initial, final_)) => self@.lookup(name@) == Some((initial@, final_@)),
                None => self@.lookup(name@) is None,
            },
    {
        let ghost m = self@;
        let mut low: usize = 0;
        let mut high: usize = self.syllables.len();
        while low < high
            invariant
                low <= high <= self.syllables.len(),
                m == self@,
                m.syllables_ordered(),
                forall|i: int|
                    0 <= i < low ==> comes_before((#[trigger] m.syllables[i]).0, name@),
                forall|i: int|
                    high <= i < m.syllables.len() ==> comes_before(
                        name@,
                        (#[trigger] m.syllables[i]).0,
                    ),
            decreases high - low,
        {
            let mid: usize = low + (high - low) / 2;
            assert(m.syllables[mid as int].0 == self.syllables@[mid as int].0@);
            match order_of(self.syllables[mid].0.as_slice(), name) {
                Order::Before => {
                    proof {
                        assert forall|i: int| 0 <= i < mid + 1 implies comes_before(
                            (#[trigger] m.syllables[i]).0,
                            name@,
                        ) by {
                            if i < mid {
                                lemma_order_transitive(
                                    m.syllables[i].0,
                                    m.syllables[mid as int].0,
                                    name@,
                                );
                            }
                        }
                    }
                    low = mid + 1;
                },
                Order::Same => {
                    proof {
                        lemma_lookup_row(m, mid as int);
                    }
                    return Some((self.syllables[mid].1, self.syllables[mid].2));
                },
                Order::After => {
                    proof {
                        assert forall|i: int| mid <= i < m.syllables.len() implies comes_before(
                            name@,
                            (#[trigger] m.syllables[i]).0,
                        ) by {
                            if mid < i {
                                lemma_order_transitive(
                                    name@,
                                    m.syllables[mid as int].0,
                                    m.syllables[i].0,
                                );
                            }
                        }
                    }
                    high = mid;
                },
            }
        }
        proof {
            lemma_order_irreflexive(name@);
            assert forall|i: int| !m.is_syllable_row(i, name@) by {
                if 0 <= i < m.syllables.len() {
                    assert(i < low || high <= i);
                    assert(m.syllables[i].0 != name@);
                }
            }
        }
        None
    }

    /// Find the spelling of a packed syllable by binary search.
    pub(crate) fn spelling(&self, key: u16) -> (r: Option<&str>)
        requires
            self@.spellings_ordered(),
        ensures
            match r {
                Some(name) => self@.spelling(key) == Some(name@),
                None => self@.spelling(key) is None,
            },
    {
        let ghost m = self@;
        let mut low: usize = 0;
        let mut high: usize = self.spellings.len();
        while low < high
            invariant
                low <= high <= self.spellings.len(),
                m == self@,
                m.spellings_ordered(),
                forall|i: int| 0 <= i < low ==> (#[trigger] m.spellings[i]).0 < key,
                forall|i: int|
                    high <= i < m.spellings.len() ==> key < (#[trigger] m.spellings[i]).0,
            decreases high - low,
        {
            let mid: usize = low + (high - low) / 2;
            let found: u16 = self.spellings[mid].0;
            assert(m.spellings[mid as int].0 == found);
            if found < key {
                low = mid + 1;
            } else if key < found {
                high = mid;
            } else {
                proof {
                    lemma_spelling_row(m, mid as int);
                }
                return Some(self.spellings[mid].1.as_str());
            }
        }
        assert forall|i: int| !m.is_spelling_row(i, key) by {
            if 0 <= i < m.spellings.len() {
                assert(i < low || high <= i);
                assert(m.spellings[i].0 != key);
            }
        }
        None
    }

    /// Whether the syllables are in order.
    fn check_syllables(&self) -> (r: bool)
        ensures
            r == self@.syllables_ordered(),
    {
        let ghost m = self@;
        let mut n: usize = 0;
        while n < self.syllables.len()
            invariant
                n <= self.syllables.len(),
                m == self@,
                forall|i: int|
                    0 <= i < n ==> is_spelling((#[trigger] m.syllables[i]).0) && is_initial_code(
                        m.syllables[i].1,
                    ) && is_final_code(m.syllables[i].2),
                forall|i: int, j: int|
                    0 <= i < j < n ==> comes_before(
                        (#[trigger] m.syllables[i]).0,
                        (#[trigger] m.syllables[j]).0,
                    ),
            decreases self.syllables.len() - n,
        {
            let name: &[char] = self.syllables[n].0.as_slice();
            let _initial: u16 = self.syllables[n].1.bits();
            let _final: u16 = self.syllables[n].2.bits();
            assert(m.syllables[n as int].0 == name@);
            if !check_spelling(name) {
                return false;
            }
            if n > 0 {
                assert(m.syllables[n - 1].0 == self.syllables@[n - 1].0@);
                match order_of(self.syllables[n - 1].0.as_slice(), name) {
                    Order::Before => {
                        assert forall|i: int| 0 <= i < n implies comes_before(
                            (#[trigger] m.syllables[i]).0,
                            name@,
                        ) by {
                            if i < n - 1 {
                                lemma_order_transitive(
                                    m.syllables[i].0,
                                    m.syllables[n - 1].0,
                                    name@,
                                );
                            }
                        }
                    },
                    Order::Same => {
                        proof {
                            lemma_order_irreflexive(name@);
                        }
                        assert(!comes_before(m.syllables[n - 1].0, m.syllables[n as int].0));
                        return false;
                    },
                    Order::After => {
                        assert(!comes_before(m.syllables[n - 1].0, m.syllables[n as int].0)) by {
                            if comes_before(m.syllables[n - 1].0, m.syllables[n as int].0) {
                                lemma_order_transitive(
                                    name@,
                                    m.syllables[n - 1].0,
                                    name@,
                                );
                                lemma_order_irreflexive(name@);
                            }
                        }
                        return false;
                    },
                }
            }
            n = n + 1;
        }
        true
    }

    /// Whether the spellings are in order and read back as what they spell.
    fn check_spellings(&self) -> (r: bool)
        requires
            self@.syllables_ordered(),
        ensures
            r == (self@.spellings_ordered() && self@.spellings_read_back()),
    {
        proof {
            reveal(TableModel::spellings_read_back);
        }
        let ghost m = self@;
        let mut n: usize = 0;
        while n < self.spellings.len()
            invariant
                n <= self.spellings.len(),
                m == self@,
                m.syllables_ordered(),
                forall|i: int, j: int|
                    0 <= i < j < n ==> (#[trigger] m.spellings[i]).0 < (
                    #[trigger] m.spellings[j]).0,
                forall|i: int|
                    0 <= i < n ==> {
                        let (key, name) = #[trigger] m.spellings[i];
                        m.lookup(name) matches Some((initial, final_)) && initial | final_ == key
                    },
            decreases self.spellings.len() - n,
        {
            proof {
                reveal(TableModel::spellings_read_back);
            }
            let key: u16 = self.spellings[n].0;
            let name: Vec<char> = chars_of(self.spellings[n].1.as_str());
            assert(m.spellings[n as int] == (key, name@));
            match self.lookup(name.as_slice()) {
                Some((initial, final_)) => {
                    if initial.bits() | final_.bits() != key {
                        return false;
                    }
                },
                None => {
                    return false;
                },
            }
            if n > 0 {
                let previous: u16 = self.spellings[n - 1].0;
                assert(m.spellings[n - 1].0 == previous);
                if previous >= key {
                    return false;
                }
            }
            n = n + 1;
        }
        true
    }

    /// Named codes always fit, since each is held as its field.
    fn read_named_codes(&self)
        ensures
            self@.named_codes_fit(),
    {
        let ghost m = self@;
        let mut n: usize = 0;
        while n < self.initials.len()
            invariant
                n <= self.initials.len(),
                m == self@,
                forall|i: int| 0 <= i < n ==> is_initial_code((#[trigger] m.initials[i]).1),
            decreases self.initials.len() - n,
        {
            let code: u16 = self.initials[n].1.bits();
            assert(m.initials[n as int].1 == code);
            n = n + 1;
        }
        n = 0;
        while n < self.finals.len()
            invariant
                n <= self.finals.len(),
                m == self@,
                forall|i: int| 0 <= i < n ==> is_final_code((#[trigger] m.finals[i]).1),
            decreases self.finals.len() - n,
        {
            let code: u16 = self.finals[n].1.bits();
            assert(m.finals[n as int].1 == code);
            n = n + 1;
        }
    }

    /// Whether every syllable has a spelling.
    fn check_coverage(&self) -> (r: bool)
        requires
            self@.spellings_ordered(),
        ensures
            r == self@.syllables_have_spellings(),
    {
        proof {
            reveal(TableModel::syllables_have_spellings);
        }
        let ghost m = self@;
        let mut n: usize = 0;
        while n < self.syllables.len()
            invariant
                n <= self.syllables.len(),
                m == self@,
                m.spellings_ordered(),
                forall|i: int|
                    0 <= i < n ==> m.spelling(
                        (#[trigger] m.syllables[i]).1 | m.syllables[i].2,
                    ) is Some,
            decreases self.syllables.len() - n,
        {
            proof {
                reveal(TableModel::syllables_have_spellings);
            }
            let initial: u16 = self.syllables[n].1.bits();
            let final_: u16 = self.syllables[n].2.bits();
            assert(m.syllables[n as int].1 == initial);
            assert(m.syllables[n as int].2 == final_);
            if self.spelling(initial | final_).is_none() {
                return false;
            }
            n = n + 1;
        }
        true
    }

    /// How many syllables there are.
    pub(crate) fn len(&self) -> (r: usize)
        ensures
            r == self@.syllables.len(),
    {
        self.syllables.len()
    }

    /// The name and the 声母 of one of the syllables.
    pub(crate) fn syllable(&self, i: usize) -> (r: (&[char], Initial))
        requires
            i < self@.syllables.len(),
        ensures
            r.0@ == self@.syllables[i as int].0,
            r.1@ == self@.syllables[i as int].1,
    {
        (self.syllables[i].0.as_slice(), self.syllables[i].1)
    }

    /// The first 声母 with a name.
    pub(crate) fn initial_named(&self, name: &[char]) -> (r: Option<Initial>)
        ensures
            match r {
                Some(initial) => code_named(self@.initials, name@) == Some(initial@),
                None => code_named(self@.initials, name@) is None,
            },
    {
        let rows: &Vec<(Vec<char>, Initial)> = &self.initials;
        let ghost model = self@.initials;
        let mut i: usize = 0;
        assert(model.skip(0) =~= model);
        while i < rows.len()
            invariant
                i <= rows.len(),
                model == self@.initials,
                model.len() == rows.len(),
                forall|j: int|
                    0 <= j < rows.len() ==> #[trigger] model[j] == (rows@[j].0@, rows@[j].1@),
                code_named(model, name@) == code_named(model.skip(i as int), name@),
            decreases rows.len() - i,
        {
            assert(model.skip(i as int)[0] == model[i as int]);
            if same_chars(rows[i].0.as_slice(), name) {
                return Some(rows[i].1);
            }
            assert(model.skip(i as int).skip(1) =~= model.skip(i + 1));
            i = i + 1;
        }
        None
    }

    /// The first 韵母 with a phonemic name.
    pub(crate) fn final_named(&self, name: &[char]) -> (r: Option<Final>)
        ensures
            match r {
                Some(final_) => code_named(self@.finals, name@) == Some(final_@),
                None => code_named(self@.finals, name@) is None,
            },
    {
        let rows: &Vec<(Vec<char>, Final)> = &self.finals;
        let ghost model = self@.finals;
        let mut i: usize = 0;
        assert(model.skip(0) =~= model);
        while i < rows.len()
            invariant
                i <= rows.len(),
                model == self@.finals,
                model.len() == rows.len(),
                forall|j: int|
                    0 <= j < rows.len() ==> #[trigger] model[j] == (rows@[j].0@, rows@[j].1@),
                code_named(model, name@) == code_named(model.skip(i as int), name@),
            decreases rows.len() - i,
        {
            assert(model.skip(i as int)[0] == model[i as int]);
            if same_chars(rows[i].0.as_slice(), name) {
                return Some(rows[i].1);
            }
            assert(model.skip(i as int).skip(1) =~= model.skip(i + 1));
            i = i + 1;
        }
        None
    }
}

/// The tables of standard pinyin, in rows that hold together.
pub struct Tables {
    rows: Rows,
}

impl View for Tables {
    type V = TableModel;

    closed spec fn view(&self) -> TableModel {
        self.rows@
    }
}

impl Tables {
    /// Every set of tables holds together and is that of standard pinyin.
    #[verifier::type_invariant]
    pub open spec fn holds_together(self) -> bool {
        self@.valid() && is_standard(self@)
    }

    /// Take over the rows of a set of tables, if they hold together and are those of
    /// standard pinyin.
    pub fn new(
        syllables: Vec<(String, Initial, Final)>,
        spellings: Vec<(u16, String)>,
        initials: Vec<(String, Initial)>,
        finals: Vec<(String, Final)>,
    ) -> (r: Option<Tables>)
        ensures
            r is Some <==> ({
                let m = model_of_rows(syllables@, spellings@, initials@, finals@);
                m.valid() && is_standard(m)
            }),
            r matches Some(tables) ==> tables@ == model_of_rows(
                syllables@,
                spellings@,
                initials@,
                finals@,
            ),
    {
        let ghost m = model_of_rows(syllables@, spellings@, initials@, finals@);
        let mut syllable_rows: Vec<(Vec<char>, Initial, Final)> = Vec::new();
        let mut i: usize = 0;
        while i < syllables.len()
            invariant
                i <= syllables.len(),
                syllable_rows.len() == i,
                forall|j: int|
                    0 <= j < i ==> {
                        &&& (#[trigger] syllable_rows@[j]).0@ == syllables@[j].0@
                        &&& syllable_rows@[j].1 == syllables@[j].1
                        &&& syllable_rows@[j].2 == syllables@[j].2
                    },
            decreases syllables.len() - i,
        {
            syllable_rows.push(
                (chars_of(syllables[i].0.as_str()), syllables[i].1, syllables[i].2),
            );
            i = i + 1;
        }
        let mut initial_rows: Vec<(Vec<char>, Initial)> = Vec::new();
        i = 0;
        while i < initials.len()
            invariant
                i <= initials.len(),
                initial_rows.len() == i,
                forall|j: int|
                    0 <= j < i ==> {
                        &&& (#[trigger] initial_rows@[j]).0@ == initials@[j].0@
                        &&& initial_rows@[j].1 == initials@[j].1
                    },
            decreases initials.len() - i,
        {
            initial_rows.push((chars_of(initials[i].0.as_str()), initials[i].1));
            i = i + 1;
        }
        let mut final_rows: Vec<(Vec<char>, Final)> = Vec::new();
        i = 0;
        while i < finals.len()
            invariant
                i <= finals.len(),
                final_rows.len() == i,
                forall|j: int|
                    0 <= j < i ==> {
                        &&& (#[trigger] final_rows@[j]).0@ == finals@[j].0@
                        &&& final_rows@[j].1 == finals@[j].1
                    },
            decreases finals.len() - i,
        {
            final_rows.push((chars_of(finals[i].0.as_str()), finals[i].1));
            i = i + 1;
        }
        let rows = Rows {
            syllables: syllable_rows,
            spellings,
            initials: initial_rows,
            finals: final_rows,
        };
        proof {
            assert(rows@.syllables =~= m.syllables);
            assert(rows@.spellings =~= m.spellings);
            assert(rows@.initials =~= m.initials);
            assert(rows@.finals =~= m.finals);
        }
        rows.read_named_codes();
        if rows.check_syllables() && rows.check_spellings() && rows.check_coverage()
            && check_standard(&rows) {
            Some(Tables { rows })
        } else {
            None
        }
    }

    /// The 声母 and 韵母 of a toneless written syllable.
    pub fn find(&self, name: &[char]) -> (r: Option<(Initial, Final)>)
        ensures
            self@.valid(),
            is_standard(self@),
            match r {
                Some((initial, final_)) => self@.lookup(name@) == Some((initial@, final_@)),
                None => self@.lookup(name@) is None,
            },
    {
        proof {
            use_type_invariant(self);
        }
        self.rows.lookup(name)
    }

    /// The first 声母 with a name.
    pub fn initial_named(&self, name: &[char]) -> (r: Option<Initial>)
        ensures
            match r {
                Some(initial) => code_named(self@.initials, name@) == Some(initial@),
                None => code_named(self@.initials, name@) is None,
            },
    {
        self.rows.initial_named(name)
    }

    /// The first 韵母 with a phonemic name.
    pub fn final_named(&self, name: &[char]) -> (r: Option<Final>)
        ensures
            match r {
                Some(final_) => code_named(self@.finals, name@) == Some(final_@),
                None => code_named(self@.finals, name@) is None,
            },
    {
        self.rows.final_named(name)
    }
}

/// Look up a toneless written syllable, returning its 声母 and 韵母.
pub fn lookup(tables: &Tables, spelling: &str) -> (r: Option<(Initial, Final)>)
    ensures
        tables@.valid(),
        is_standard(tables@),
        match r {
            Some((initial, final_)) => tables@.lookup(spelling@) == Some((initial@, final_@)),
            None => tables@.lookup(spelling@) is None,
        },
{
    let name: Vec<char> = chars_of(spelling);
    tables.find(name.as_slice())
}

/// The canonical toneless spelling of a packed syllable, e.g. `zhong`, or nothing
/// for a value that is no syllable.
pub fn plain(tables: &Tables, value: u16) -> (r: &str)
    ensures
        tables@.valid(),
        is_standard(tables@),
        r@ == tables@.plain(value),
{
    proof {
        use_type_invariant(tables);
        reveal_strlit("");
    }
    match tables.rows.spelling(syllable_of(value)) {
        Some(name) => name,
        None => {
            let empty = "";
            assert(empty@ =~= Seq::<char>::empty());
            empty
        },
    }
}

} // verus!
