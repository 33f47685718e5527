//! The stored data: atoms and the per-project index of their headers.
use vstd::prelude::*;

use crate::text::{decimal, decimal_chars, digit_char, padded_decimal, string_eq, string_from_chars, views};

verus! {

/// Kind of knowledge an atom holds.
#[derive(Debug, Clone, Copy, PartialEq, Eq, Structural)]
pub enum AtomType {
    /// Facts, observations, domain knowledge
    Note,
    /// Warnings, pitfalls, "watch out for X"
    Gotcha,
    /// Patterns, how-to guides, code snippets
    Recipe,
    /// Architectural rationale, why X over Y
    Decision,
}

/// How sure the author is of an atom.
#[derive(Debug, Clone, Copy, PartialEq, Eq, Structural)]
pub enum Confidence {
    High,
    Medium,
    Low,
}

/// A knowledge atom.
#[derive(Debug, Clone)]
pub struct Atom {
    pub id: String,
    pub title: String,
    pub atom_type: AtomType,
    pub confidence: Confidence,
    pub summary: String,
    pub details: Option<String>,
    pub pitfalls: Vec<String>,
    pub tags: Vec<String>,
    pub sources: Vec<String>,
    /// Related atoms, each written relative to this atom's project.
    pub links: Vec<String>,
    /// Day of the last write, `YYYY-MM-DD` (empty until first written).
    pub updated_at: String,
}

impl Atom {
    /// A new atom with the given header and summary, and nothing else.
    pub fn new(id: String, title: String, atom_type: AtomType, confidence: Confidence, summary: String) -> (r: Self)
        ensures
            r.id == id,
            r.title == title,
            r.atom_type == atom_type,
            r.confidence == confidence,
            r.summary == summary,
            r.details.is_none(),
            r.pitfalls@.len() == 0,
            r.tags@.len() == 0,
            r.sources@.len() == 0,
            r.links@.len() == 0,
            r.updated_at@.len() == 0,
    {
        Atom {
            id,
            title,
            atom_type,
            confidence,
            summary,
            details: None,
            pitfalls: Vec::new(),
            tags: Vec::new(),
            sources: Vec::new(),
            links: Vec::new(),
            updated_at: String::new(),
        }
    }
}

/// The header of an atom as the project index lists it.
#[derive(Debug, Clone)]
pub struct IndexEntry {
    pub id: String,
    pub title: String,
    pub atom_type: AtomType,
    pub confidence: Confidence,
    pub tags: Vec<String>,
}

impl IndexEntry {
    /// The index entry that describes `atom`.
    pub fn from_atom(atom: &Atom) -> (r: Self)
        ensures
            r.id@ == atom.id@,
            r.title@ == atom.title@,
            r.atom_type == atom.atom_type,
            r.confidence == atom.confidence,
            views(r.tags@) == views(atom.tags@),
    {
        IndexEntry {
            id: atom.id.clone(),
            title: atom.title.clone(),
            atom_type: atom.atom_type,
            confidence: atom.confidence,
            tags: clone_strings(&atom.tags),
        }
    }
}

/// The view of an index entry: id, title, type, confidence and tags.
pub type EntryView = (Seq<char>, Seq<char>, AtomType, Confidence, Seq<Seq<char>>);

impl View for IndexEntry {
    type V = EntryView;

    open spec fn view(&self) -> EntryView {
        (self.id@, self.title@, self.atom_type, self.confidence, views(self.tags@))
    }
}

impl IndexEntry {
    /// A copy of the entry.
    pub fn duplicate(&self) -> (r: Self)
        ensures
            r@ == self@,
    {
        IndexEntry {
            id: self.id.clone(),
            title: self.title.clone(),
            atom_type: self.atom_type,
            confidence: self.confidence,
            tags: clone_strings(&self.tags),
        }
    }
}

pub open spec fn entry_views(s: Seq<IndexEntry>) -> Seq<EntryView> {
    s.map_values(|e: IndexEntry| e@)
}

/// A copy of a list of strings.
pub fn clone_strings(v: &Vec<String>) -> (r: Vec<String>)
    ensures
        views(r@) == views(v@),
        r@.len() == v@.len(),
{
    let mut r: Vec<String> = Vec::new();
    let mut i: usize = 0;
    while i < v.len()
        invariant
            i <= v.len(),
            views(r@) == views(v@.take(i as int)),
            r@.len() == i,
        decreases v.len() - i,
    {
        let s = v[i].clone();
        assert(s@ == v@[i as int]@);
        let ghost old_r = r@;
        r.push(s);
        i += 1;
        assert forall|j: int| 0 <= j < i implies #[trigger] views(r@)[j] == views(v@.take(i as int))[j] by {
            if j < i - 1 {
                assert(views(old_r)[j] == views(v@.take(i - 1))[j]);
            }
        }
        assert(views(r@) =~= views(v@.take(i as int)));
    }
    assert(v@.take(v.len() as int) =~= v@);
    r
}

/// The index of a project: the next id to hand out and one entry per atom.
#[derive(Debug, Clone)]
pub struct Index {
    pub next_id: u64,
    pub entries: Vec<IndexEntry>,
}

/// `K-` followed by `n` in at least six digits.
pub open spec fn atom_id_text(n: nat) -> Seq<char> {
    seq!['K', '-'] + padded_decimal(n, 6)
}


/// The number a sequence of decimal digits denotes (leading zeros allowed).
pub open spec fn digits_value(s: Seq<char>) -> int
    decreases s.len(),
{
    if s.len() == 0 {
        0
    } else {
        digits_value(s.drop_last()) * 10 + ((s.last() as u32) - 48)
    }
}

proof fn lemma_decimal_value(n: nat)
    ensures
        digits_value(decimal(n)) == n,
    decreases n,
{
    if n < 10 {
        let d = decimal(n);
        assert(d.drop_last() =~= Seq::<char>::empty());
        assert(((((n + 48) as u32) as char) as u32) == n + 48);
        assert(d.last() == digit_char(n));
        assert(digits_value(d) == digits_value(d.drop_last()) * 10 + ((d.last() as u32) - 48));
    } else {
        lemma_decimal_value(n / 10);
        let d = decimal(n);
        assert(d.drop_last() =~= decimal(n / 10));
        let r = n % 10;
        assert(((((r + 48) as u32) as char) as u32) == r + 48);
        assert(d.last() == digit_char(r));
        assert(digits_value(d) == digits_value(decimal(n / 10)) * 10 + r);
        assert(n == (n / 10) * 10 + r);
    }
}

proof fn lemma_zeros_value(k: nat, s: Seq<char>)
    ensures
        digits_value(Seq::new(k, |i: int| '0') + s) == digits_value(s),
    decreases k + s.len(),
{
    let z = Seq::new(k, |i: int| '0');
    if s.len() == 0 {
        assert(z + s =~= z);
        if k > 0 {
            lemma_zeros_value((k - 1) as nat, Seq::<char>::empty());
            assert(z.drop_last() =~= Seq::new((k - 1) as nat, |i: int| '0') + Seq::<char>::empty());
            assert(('0' as u32) == 48);
        }
    } else {
        lemma_zeros_value(k, s.drop_last());
        assert((z + s).drop_last() =~= z + s.drop_last());
    }
}

/// Distinct counters give distinct atom ids, so an index never hands out
/// the same id twice.
pub proof fn law_atom_ids_distinct(n: nat, m: nat)
    requires
        n != m,
    ensures
        atom_id_text(n) != atom_id_text(m),
{
    lemma_decimal_value(n);
    lemma_decimal_value(m);
    let kn = (if 6 > decimal(n).len() { 6 - decimal(n).len() } else { 0 }) as nat;
    let km = (if 6 > decimal(m).len() { 6 - decimal(m).len() } else { 0 }) as nat;
    lemma_zeros_value(kn, decimal(n));
    lemma_zeros_value(km, decimal(m));
    if atom_id_text(n) == atom_id_text(m) {
        assert(atom_id_text(n).skip(2) =~= padded_decimal(n, 6));
        assert(atom_id_text(m).skip(2) =~= padded_decimal(m, 6));
    }
}

/// `c` is an ASCII digit.
pub open spec fn is_digit(c: char) -> bool {
    48 <= (c as u32) <= 57
}

/// Every character is an ASCII digit.
pub open spec fn all_digits(s: Seq<char>) -> bool {
    forall|i: int| 0 <= i < s.len() ==> is_digit(#[trigger] s[i])
}

/// The number an id of the form `K-<digits>` carries; `None` for any other id.
pub open spec fn id_number(id: Seq<char>) -> Option<int> {
    if id.len() > 2 && id[0] == 'K' && id[1] == '-' && all_digits(id.skip(2)) {
        Some(digits_value(id.skip(2)))
    } else {
        None
    }
}

/// The id carries a number below `next`, or no number at all.
pub open spec fn issued_before(id: Seq<char>, next: u64) -> bool {
    match id_number(id) {
        Some(v) => v < next,
        None => true,
    }
}

proof fn lemma_decimal_digits(n: nat)
    ensures
        all_digits(decimal(n)),
        decimal(n).len() > 0,
    decreases n,
{
    if n < 10 {
        assert(((((n + 48) as u32) as char) as u32) == n + 48);
    } else {
        lemma_decimal_digits(n / 10);
        let r = n % 10;
        assert(((((r + 48) as u32) as char) as u32) == r + 48);
        let d = decimal(n);
        assert forall|i: int| 0 <= i < d.len() implies is_digit(#[trigger] d[i]) by {
            if i < d.len() - 1 {
                assert(d[i] == decimal(n / 10)[i]);
            }
        }
    }
}

/// The id handed out for `n` carries `n`.
pub proof fn lemma_id_number_of_atom_id(n: nat)
    ensures
        id_number(atom_id_text(n)) == Some(n as int),
{
    lemma_decimal_digits(n);
    lemma_decimal_value(n);
    let k = (if 6 > decimal(n).len() { 6 - decimal(n).len() } else { 0 }) as nat;
    lemma_zeros_value(k, decimal(n));
    let t = atom_id_text(n);
    let p = padded_decimal(n, 6);
    assert(t.skip(2) =~= p);
    assert forall|i: int| 0 <= i < p.len() implies is_digit(#[trigger] p[i]) by {
        if i >= k {
            assert(p[i] == decimal(n)[i - k]);
        } else {
            assert(p[i] == '0');
        }
    }
}

/// No entry of a well-formed index holds the id of a number at or above its
/// next id: each create hands out a new id, and since it leaves the index
/// well-formed with a larger next id, two creates never hand out the same id.
pub proof fn law_ids_from_next_are_new(ix: Index, m: nat)
    requires
        ix.wf(),
        m >= ix.next_id,
    ensures
        !has_entry(ix.entries@, atom_id_text(m)),
{
    lemma_id_number_of_atom_id(m);
    if has_entry(ix.entries@, atom_id_text(m)) {
        let i = choose|i: int| 0 <= i < ix.entries@.len() && ix.entries@[i].id@ == atom_id_text(m);
        assert(issued_before(ix.entries@[i].id@, ix.next_id));
    }
}

/// Whether `id` carries no number at or above `next`.
pub fn id_issued_before(id: &String, next: u64) -> (r: bool)
    ensures
        r == issued_before(id@, next),
{
    let v = crate::text::str_chars(id.as_str());
    if v.len() <= 2 || v[0] != 'K' || v[1] != '-' {
        return true;
    }
    let ghost s = v@.skip(2);
    let mut i: usize = 2;
    while i < v.len()
        invariant
            2 <= i <= v.len(),
            s == v@.skip(2),
            v@ == id@,
            forall|j: int| 0 <= j < i - 2 ==> is_digit(#[trigger] s[j]),
        decreases v.len() - i,
    {
        let c = v[i] as u32;
        assert(c == (v@[i as int] as u32));
        if c < 48 || c > 57 {
            assert(s[i - 2] == v@[i as int]);
            assert(!is_digit(s[i - 2]));
            return true;
        }
        assert(s[i - 2] == v@[i as int]);
        i += 1;
    }
    assert(all_digits(s));
    if next == 0 {
        proof {
            lemma_digits_value_nonneg(s);
        }
        return false;
    }
    let mut acc: u128 = 0;
    assert(s.take(0) =~= Seq::<char>::empty());
    let mut k: usize = 2;
    while k < v.len()
        invariant
            2 <= k <= v.len(),
            s == v@.skip(2),
            v@ == id@,
            v@.len() > 2 && v@[0] == 'K' && v@[1] == '-',
            all_digits(s),
            acc == digits_value(s.take(k - 2)),
            acc < next,
        decreases v.len() - k,
    {
        assert(s.take(k - 2 + 1).drop_last() =~= s.take(k - 2));
        assert(s.take(k - 2 + 1).last() == s[k - 2]);
        assert(s[k - 2] == v@[k as int]);
        let c = v[k] as u32;
        assert(c == (v@[k as int] as u32));
        assert(48 <= c <= 57);
        let d = (c - 48) as u128;
        let next_acc = acc * 10 + d;
        if next_acc >= next as u128 {
            proof {
                lemma_digits_value_grows(s, (k - 2 + 1) as int);
            }
            return false;
        }
        acc = next_acc;
        k += 1;
    }
    assert(s.take(s.len() as int) =~= s);
    true
}

/// A longer prefix of digits denotes at least as large a number.
proof fn lemma_digits_value_grows(s: Seq<char>, j: int)
    requires
        all_digits(s),
        0 <= j <= s.len(),
    ensures
        digits_value(s) >= digits_value(s.take(j)),
        digits_value(s.take(j)) >= 0,
    decreases s.len(),
{
    lemma_digits_value_nonneg(s.take(j));
    if j < s.len() {
        assert(s.drop_last().take(j) =~= s.take(j));
        lemma_digits_value_grows(s.drop_last(), j);
        lemma_digits_value_nonneg(s.drop_last());
        assert(is_digit(s[s.len() - 1]));
    } else {
        assert(s.take(j) =~= s);
    }
}

proof fn lemma_digits_value_nonneg(s: Seq<char>)
    requires
        all_digits(s),
    ensures
        digits_value(s) >= 0,
    decreases s.len(),
{
    if s.len() > 0 {
        lemma_digits_value_nonneg(s.drop_last());
        assert(is_digit(s[s.len() - 1]));
    }
}

/// `i` is the position of the first entry whose id is `id`.
pub open spec fn is_first_entry(entries: Seq<IndexEntry>, id: Seq<char>, i: int) -> bool {
    &&& 0 <= i < entries.len()
    &&& entries[i].id@ == id
    &&& forall|j: int| 0 <= j < i ==> entries[j].id@ != id
}

pub open spec fn has_entry(entries: Seq<IndexEntry>, id: Seq<char>) -> bool {
    exists|i: int| 0 <= i < entries.len() && entries[i].id@ == id
}

/// The position of the first entry with id `id` (meaningful when there is one).
pub open spec fn first_entry(entries: Seq<IndexEntry>, id: Seq<char>) -> int {
    choose|i: int| is_first_entry(entries, id, i)
}

pub proof fn lemma_first_entry(entries: Seq<IndexEntry>, id: Seq<char>, i: int)
    requires
        is_first_entry(entries, id, i),
    ensures
        first_entry(entries, id) == i,
{
    let k = first_entry(entries, id);
    assert(is_first_entry(entries, id, k));
    if k < i {
        assert(entries[k].id@ != id);
    }
    if i < k {
        assert(entries[i].id@ != id);
    }
}

/// The entries after `e` replaces the first entry with its id, or is appended.
pub open spec fn upserted_entries(entries: Seq<IndexEntry>, e: IndexEntry) -> Seq<IndexEntry> {
    if has_entry(entries, e.id@) {
        entries.update(first_entry(entries, e.id@), e)
    } else {
        entries.push(e)
    }
}

impl Index {
    /// Well-formed: every entry's id was handed out before the next id, so
    /// the next id is new to the index.
    pub open spec fn wf(&self) -> bool {
        forall|i: int| 0 <= i < self.entries@.len() ==> issued_before(#[trigger] self.entries@[i].id@, self.next_id)
    }

    /// Whether the index is well-formed.
    pub fn is_wf(&self) -> (r: bool)
        ensures
            r == self.wf(),
    {
        let mut i: usize = 0;
        while i < self.entries.len()
            invariant
                i <= self.entries.len(),
                forall|j: int| 0 <= j < i ==> issued_before(#[trigger] self.entries@[j].id@, self.next_id),
            decreases self.entries.len() - i,
        {
            if !id_issued_before(&self.entries[i].id, self.next_id) {
                return false;
            }
            i += 1;
        }
        true
    }

    /// An empty index whose first id is `K-000001`.
    pub fn new() -> (r: Self)
        ensures
            r.next_id == 1,
            r.entries@.len() == 0,
            r.wf(),
    {
        Index { next_id: 1, entries: Vec::new() }
    }

    /// Hand out the next atom id.
    pub fn generate_id(&mut self) -> (r: String)
        requires
            old(self).next_id < u64::MAX,
        ensures
            r@ == atom_id_text(old(self).next_id as nat),
            final(self).next_id == old(self).next_id + 1,
            final(self).entries == old(self).entries,
            old(self).wf() ==> final(self).wf(),
    {
        let n = self.next_id;
        let digits = decimal_chars(n);
        let mut v: Vec<char> = Vec::new();
        v.push('K');
        v.push('-');
        let mut pad: usize = 0;
        let width: usize = if digits.len() < 6 { 6 - digits.len() } else { 0 };
        while pad < width
            invariant
                pad <= width,
                v@ == seq!['K', '-'] + Seq::new(pad as nat, |i: int| '0'),
            decreases width - pad,
        {
            v.push('0');
            pad += 1;
            assert(v@ =~= seq!['K', '-'] + Seq::new(pad as nat, |i: int| '0'));
        }
        let mut i: usize = 0;
        let ghost head = v@;
        while i < digits.len()
            invariant
                i <= digits.len(),
                v@ == head + digits@.take(i as int),
            decreases digits.len() - i,
        {
            v.push(digits[i]);
            i += 1;
            assert(v@ =~= head + digits@.take(i as int));
        }
        assert(digits@.take(digits.len() as int) =~= digits@);
        assert(v@ =~= atom_id_text(n as nat));
        self.next_id = n + 1;
        string_from_chars(&v)
    }

    /// The position of the first entry with id `id`, if any.
    pub fn find_entry(&self, id: &String) -> (r: Option<usize>)
        ensures
            match r {
                Some(i) => is_first_entry(self.entries@, id@, i as int),
                None => !has_entry(self.entries@, id@),
            },
    {
        let mut i: usize = 0;
        while i < self.entries.len()
            invariant
                i <= self.entries.len(),
                forall|j: int| 0 <= j < i ==> self.entries@[j].id@ != id@,
            decreases self.entries.len() - i,
        {
            if string_eq(&self.entries[i].id, id) {
                return Some(i);
            }
            i += 1;
        }
        None
    }

    /// Replace the entry with the same id, or add the entry at the end.
    pub fn insert_or_replace_entry(&mut self, entry: IndexEntry)
        ensures
            final(self).next_id == old(self).next_id,
            final(self).entries@ == upserted_entries(old(self).entries@, entry),
            has_entry(old(self).entries@, entry.id@) ==> exists|i: int|
                is_first_entry(old(self).entries@, entry.id@, i) && final(self).entries@ == old(self).entries@.update(i, entry),
            !has_entry(old(self).entries@, entry.id@) ==> final(self).entries@ == old(self).entries@.push(entry),
            old(self).wf() && issued_before(entry.id@, old(self).next_id) ==> final(self).wf(),
    {
        match self.find_entry(&entry.id) {
            Some(i) => {
                proof {
                    lemma_first_entry(self.entries@, entry.id@, i as int);
                }
                self.entries.set(i, entry);
            },
            None => {
                self.entries.push(entry);
            },
        }
    }

    /// Remove the entry with id `id`, returning it.
    pub fn remove_entry(&mut self, id: &String) -> (r: Option<IndexEntry>)
        ensures
            final(self).next_id == old(self).next_id,
            match r {
                Some(e) => exists|i: int|
                    is_first_entry(old(self).entries@, id@, i) && e == old(self).entries@[i] && final(self).entries@ == old(self).entries@.remove(i),
                None => !has_entry(old(self).entries@, id@) && final(self).entries@ == old(self).entries@,
            },
            old(self).wf() ==> final(self).wf(),
    {
        match self.find_entry(id) {
            Some(i) => Some(self.entries.remove(i)),
            None => None,
        }
    }
}

} // verus!
