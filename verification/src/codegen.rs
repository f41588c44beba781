//! Code generation: lowering of the syntax tree to the instruction model,
//! following the Microsoft x64 calling convention (arguments in RCX, RDX,
//! R8, R9; 32 bytes of shadow space per call; RBX and RBP saved by the
//! callee), with a stack-based evaluation of expressions.

use vstd::prelude::*;
use crate::ast::{Assignment, Variable, BinaryOp, Expression, FunctionBlock, Literal, LiteralValue, ModuleBlock, Parameter, Program, Return, SinkCall, Statement, UnaryOp, ValueType};
use crate::ir::{Conditional, InstrV, Instruction, Operand, OperandSize, OperandV, Register, instrs_view, lemma_instrs_view_push};
use crate::text::{lemma_nat_digits_injective, nat_digits, push_nat, push_str, push_string, string_of};

verus! {

/// The output forms of the compiler.
#[derive(Debug, Clone, Copy, PartialEq, Eq, Structural)]
pub enum OutputFormat {
    Asm,
    RustSource,
    Pe,
}

/// Bytes of shadow space the caller reserves for every call.
pub const SHADOW_SPACE: i64 = 32;

// ============================================================================
// Symbol table
// ============================================================================

/// The slot of `name` in a list of declarations: the latest declaration wins.
pub open spec fn slot_lookup(slots: Seq<(Seq<char>, i64)>, name: Seq<char>) -> Option<i64>
    decreases slots.len(),
{
    if slots.len() == 0 {
        None
    } else if slots.last().0 == name {
        Some(slots.last().1)
    } else {
        slot_lookup(slots.drop_last(), name)
    }
}

/// Abstract symbol table: the declarations in order, and the last offset
/// handed out.
pub type SymView = (Seq<(Seq<char>, i64)>, i64);

/// The table after declaring `name`: the next slot is 8 bytes further down.
pub open spec fn sym_declare(t: SymView, name: Seq<char>) -> SymView {
    (t.0.push((name, (t.1 + 8) as i64)), (t.1 + 8) as i64)
}

/// Offsets are positive multiples of nothing in particular, but always lie
/// in `8..=next`, and `next` is not negative.
pub open spec fn sym_wf(t: SymView) -> bool {
    &&& 0 <= t.1
    &&& forall|i: int| 0 <= i < t.0.len() ==> 8 <= #[trigger] t.0[i].1 <= t.1
}

/// A table maps each local to a `[rbp - offset]` stack slot.
#[derive(Debug)]
pub struct SymbolTable {
    slots: Vec<(String, i64)>,
    next_offset: i64,
}

impl View for SymbolTable {
    type V = SymView;

    closed spec fn view(&self) -> SymView {
        (self.slots@.map_values(|p: (String, i64)| (p.0@, p.1)), self.next_offset)
    }
}

proof fn lemma_slot_lookup_found(slots: Seq<(Seq<char>, i64)>, name: Seq<char>)
    requires
        slot_lookup(slots, name) is Some,
    ensures
        exists|i: int| 0 <= i < slots.len() && #[trigger] slots[i].1 == slot_lookup(slots, name)->0,
    decreases slots.len(),
{
    if slots.last().0 == name {
        assert(slots[slots.len() - 1].1 == slot_lookup(slots, name)->0);
    } else {
        lemma_slot_lookup_found(slots.drop_last(), name);
        let i = choose|i: int| 0 <= i < slots.drop_last().len() && #[trigger] slots.drop_last()[i].1
            == slot_lookup(slots.drop_last(), name)->0;
        assert(slots[i].1 == slot_lookup(slots, name)->0);
    }
}

/// Every slot found in a well-formed table lies in `8..=next`.
pub proof fn lemma_sym_lookup_bounds(t: SymView, name: Seq<char>)
    requires
        sym_wf(t),
        slot_lookup(t.0, name) is Some,
    ensures
        8 <= slot_lookup(t.0, name)->0 <= t.1,
{
    lemma_slot_lookup_found(t.0, name);
}

impl Default for SymbolTable {
    fn default() -> (r: Self)
        ensures
            r@ == (Seq::<(Seq<char>, i64)>::empty(), 0i64),
    {
        let r = SymbolTable { slots: Vec::new(), next_offset: 0 };
        assert(r@.0 =~= Seq::<(Seq<char>, i64)>::empty());
        r
    }
}

impl SymbolTable {
    /// Declares a new local and returns its `[rbp - offset]` slot offset.
    /// Offsets start at 8 (the slot just below the saved RBP) and grow by 8
    /// per declaration; a repeated name gets a fresh slot.
    pub fn declare(&mut self, name: &str) -> (off: i64)
        requires
            old(self)@.1 <= i64::MAX - 8,
        ensures
            final(self)@ == sym_declare(old(self)@, name@),
            off == final(self)@.1,
    {
        self.next_offset = self.next_offset + 8;
        self.slots.push((string_of(name), self.next_offset));
        assert(self@.0 =~= old(self)@.0.push((name@, self.next_offset)));
        self.next_offset
    }

    /// The slot offset of `name`, if declared.
    pub fn get(&self, name: &str) -> (r: Option<i64>)
        ensures
            r == slot_lookup(self@.0, name@),
    {
        let key = string_of(name);
        let mut i = self.slots.len();
        let ghost v = self@.0;
        assert(v.take(i as int) =~= v);
        while i > 0
            invariant
                i <= self.slots@.len(),
                v == self@.0,
                key@ == name@,
                slot_lookup(v, name@) == slot_lookup(v.take(i as int), name@),
            decreases i,
        {
            let ghost t = v.take(i as int);
            assert(t.drop_last() =~= v.take(i - 1));
            assert(t.last() == v[i - 1]);
            if self.slots[i - 1].0 == key {
                return Some(self.slots[i - 1].1);
            }
            i = i - 1;
        }
        assert(v.take(0) =~= Seq::<(Seq<char>, i64)>::empty());
        None
    }

    /// The last offset handed out.
    pub fn next_offset(&self) -> (r: i64)
        ensures
            r == self@.1,
    {
        self.next_offset
    }
}

// ============================================================================
// Module code container
// ============================================================================

/// Abstract read-only data: labelled byte blobs.
pub type DataView = Seq<(Seq<char>, Seq<u8>)>;

/// The contents of a list of strings.
pub open spec fn strs_view(s: Seq<String>) -> Seq<Seq<char>> {
    s.map_values(|x: String| x@)
}

/// The contents of a list of labelled blobs.
pub open spec fn data_view(d: Seq<(String, Vec<u8>)>) -> DataView {
    d.map_values(|p: (String, Vec<u8>)| (p.0@, p.1@))
}

/// `.L<prefix>_<counter>`.
pub open spec fn label_text(prefix: Seq<char>, c: usize) -> Seq<char> {
    ".L"@ + prefix + "_"@ + nat_digits(c as nat)
}

/// Law: labels made with one prefix are equal only for equal counters.
pub proof fn lemma_label_text_injective(prefix: Seq<char>, c1: usize, c2: usize)
    ensures
        label_text(prefix, c1) == label_text(prefix, c2) ==> c1 == c2,
{
    let head = ".L"@ + prefix + "_"@;
    if label_text(prefix, c1) == label_text(prefix, c2) {
        assert(label_text(prefix, c1).skip(head.len() as int) =~= nat_digits(c1 as nat));
        assert(label_text(prefix, c2).skip(head.len() as int) =~= nat_digits(c2 as nat));
        lemma_nat_digits_injective(c1 as nat, c2 as nat);
    }
}

/// Law: two labels made one after the other with the same prefix differ
/// (`new_label` moves the counter on, wrapping at the top of `usize`).
pub proof fn lemma_successive_labels_differ(prefix: Seq<char>, c: usize)
    ensures
        label_text(prefix, c) != label_text(prefix, next_count(c)),
{
    lemma_label_text_injective(prefix, c, next_count(c));
}

/// The label counter after one use (wrapping at the top of `usize`).
pub open spec fn next_count(c: usize) -> usize {
    if c == usize::MAX { 0 } else { (c + 1) as usize }
}

/// The extern list after declaring `sym`: unchanged when already present.
pub open spec fn extern_add(e: Seq<Seq<char>>, sym: Seq<char>) -> Seq<Seq<char>> {
    if e.contains(sym) { e } else { e.push(sym) }
}

/// The first blob whose payload is `bytes`.
pub open spec fn find_data(d: DataView, bytes: Seq<u8>) -> Option<int>
    decreases d.len(),
{
    if d.len() == 0 {
        None
    } else {
        match find_data(d.drop_last(), bytes) {
            Some(i) => Some(i),
            None => if d.last().1 == bytes { Some(d.len() - 1) } else { None },
        }
    }
}

/// Whether some blob already carries the label `name`.
pub open spec fn data_has_name(d: DataView, name: Seq<char>) -> bool {
    exists|j: int| 0 <= j < d.len() && #[trigger] d[j].0 == name
}

/// `name_<c>`.
pub open spec fn suffixed(name: Seq<char>, c: usize) -> Seq<char> {
    name + "_"@ + nat_digits(c as nat)
}

/// From counter `c`, trying at most `fuel` more counters (each the next
/// after the last), the first whose `name_<counter>` no blob carries.
pub open spec fn free_counter(d: DataView, name: Seq<char>, c: usize, fuel: nat) -> usize
    decreases fuel,
{
    if fuel == 0 || !data_has_name(d, suffixed(name, c)) {
        c
    } else {
        free_counter(d, name, next_count(c), (fuel - 1) as nat)
    }
}

/// Interning `bytes` under the requested `name`, from label counter `c` and
/// data `d`: an existing blob with the same payload is reused (whatever its
/// name); otherwise the blob is added under `name`, or, when `name` is
/// taken, under the first `name_<counter>` from `c` on that is free, the
/// counter then moving past it. Yields the label, the counter and the data
/// afterwards.
pub open spec fn intern_spec(c: usize, d: DataView, name: Seq<char>, bytes: Seq<u8>)
    -> (Seq<char>, usize, DataView)
{
    match find_data(d, bytes) {
        Some(i) => (d[i].0, c, d),
        None => {
            if data_has_name(d, name) {
                let k = free_counter(d, name, c, d.len());
                let label = suffixed(name, k);
                (label, next_count(k), d.push((label, bytes)))
            } else {
                (name, c, d.push((name, bytes)))
            }
        },
    }
}

/// The counter `i` steps after `c`.
pub open spec fn count_after(c: usize, i: nat) -> usize
    decreases i,
{
    if i == 0 { c } else { next_count(count_after(c, (i - 1) as nat)) }
}

proof fn lemma_count_after_mod(c: usize, i: nat)
    ensures
        count_after(c, i) as int == (c + i) % (usize::MAX as int + 1),
    decreases i,
{
    let m = usize::MAX as int + 1;
    if i == 0 {
        vstd::arithmetic::div_mod::lemma_fundamental_div_mod_converse(c as int, m, 0, c as int);
    } else {
        lemma_count_after_mod(c, (i - 1) as nat);
        let a = c + i - 1;
        let x = a % m;
        vstd::arithmetic::div_mod::lemma_fundamental_div_mod(a, m);
        let q = a / m;
        if x == m - 1 {
            assert(a + 1 == (q + 1) * m + 0) by (nonlinear_arith)
                requires a == m * q + x, x == m - 1;
            vstd::arithmetic::div_mod::lemma_fundamental_div_mod_converse(a + 1, m, q + 1, 0);
        } else {
            assert(a + 1 == q * m + (x + 1)) by (nonlinear_arith)
                requires a == m * q + x;
            vstd::arithmetic::div_mod::lemma_fundamental_div_mod_converse(a + 1, m, q, x + 1);
        }
    }
}

/// Counters fewer than the range of `usize` steps apart differ.
proof fn lemma_count_after_distinct(c: usize, i: nat, j: nat)
    requires
        i < j <= usize::MAX,
    ensures
        count_after(c, i) != count_after(c, j),
{
    let m = usize::MAX as int + 1;
    lemma_count_after_mod(c, i);
    lemma_count_after_mod(c, j);
    vstd::arithmetic::div_mod::lemma_fundamental_div_mod(c + i, m);
    vstd::arithmetic::div_mod::lemma_fundamental_div_mod(c + j, m);
    if count_after(c, i) == count_after(c, j) {
        let qi = (c + i) / m;
        let qj = (c + j) / m;
        assert(j - i == m * (qj - qi)) by (nonlinear_arith)
            requires
                c + i == m * qi + (c + i) % m,
                c + j == m * qj + (c + j) % m,
                (c + i) % m == (c + j) % m;
        assert(false) by (nonlinear_arith)
            requires
                j - i == m * (qj - qi),
                0 < j - i < m;
    }
}

proof fn lemma_count_after_next(c: usize, i: nat)
    ensures
        count_after(next_count(c), i) == count_after(c, i + 1),
    decreases i,
{
    assert(count_after(c, 0) == c);
    if i > 0 {
        lemma_count_after_next(c, (i - 1) as nat);
        assert(count_after(c, i + 1) == next_count(count_after(c, i)));
        assert(count_after(next_count(c), i) == next_count(count_after(next_count(c), (i - 1) as nat)));
    } else {
        assert(count_after(c, 1) == next_count(count_after(c, 0)));
    }
}

proof fn lemma_suffixed_injective(name: Seq<char>, a: usize, b: usize)
    ensures
        suffixed(name, a) == suffixed(name, b) ==> a == b,
{
    let head = name + "_"@;
    if suffixed(name, a) == suffixed(name, b) {
        assert(suffixed(name, a).skip(head.len() as int) =~= nat_digits(a as nat));
        assert(suffixed(name, b).skip(head.len() as int) =~= nat_digits(b as nat));
        lemma_nat_digits_injective(a as nat, b as nat);
    }
}

/// If the search ends on a taken label, every label it tried was taken.
proof fn lemma_free_counter_walk(d: DataView, name: Seq<char>, c: usize, f: nat)
    requires
        data_has_name(d, suffixed(name, free_counter(d, name, c, f))),
    ensures
        forall|i: nat| i <= f ==> data_has_name(d, #[trigger] suffixed(name, count_after(c, i))),
    decreases f,
{
    if f > 0 {
        lemma_free_counter_walk(d, name, next_count(c), (f - 1) as nat);
        assert forall|i: nat| i <= f implies data_has_name(d, #[trigger] suffixed(name, count_after(c, i))) by {
            if i > 0 {
                lemma_count_after_next(c, (i - 1) as nat);
                assert(data_has_name(d, suffixed(name, count_after(next_count(c), (i - 1) as nat))));
            }
        }
    }
}

/// The names of the blobs.
pub open spec fn data_names(d: DataView) -> Seq<Seq<char>> {
    d.map_values(|p: (Seq<char>, Seq<u8>)| p.0)
}

/// The search through `d.len()` more counters always ends on a free label:
/// the `d.len() + 1` labels it could try are distinct, and `d` has fewer
/// names.
pub proof fn lemma_free_counter_free(d: DataView, name: Seq<char>, c: usize)
    requires
        d.len() <= usize::MAX,
    ensures
        !data_has_name(d, suffixed(name, free_counter(d, name, c, d.len()))),
{
    if data_has_name(d, suffixed(name, free_counter(d, name, c, d.len()))) {
        lemma_free_counter_walk(d, name, c, d.len());
        let n = d.len() + 1;
        let tried = Seq::new(n, |i: int| suffixed(name, count_after(c, i as nat)));
        let names = data_names(d);
        assert forall|a: int, b: int| 0 <= a < tried.len() && 0 <= b < tried.len() && a != b
            implies tried[a] != tried[b] by {
            if a < b {
                lemma_count_after_distinct(c, a as nat, b as nat);
            } else {
                lemma_count_after_distinct(c, b as nat, a as nat);
            }
            lemma_suffixed_injective(name, count_after(c, a as nat), count_after(c, b as nat));
        }
        assert(tried.no_duplicates());
        assert forall|x: Seq<char>| tried.to_set().contains(x) implies names.to_set().contains(x) by {
            let i = choose|i: int| 0 <= i < tried.len() && tried[i] == x;
            assert(data_has_name(d, suffixed(name, count_after(c, i as nat))));
            let j = choose|j: int| 0 <= j < d.len() && #[trigger] d[j].0 == suffixed(name, count_after(c, i as nat));
            assert(names[j] == x);
        }
        tried.unique_seq_to_set();
        names.lemma_cardinality_of_set();
        vstd::seq_lib::seq_to_set_is_finite(names);
        vstd::set_lib::lemma_len_subset(tried.to_set(), names.to_set());
        assert(false);
    }
}

/// Law: interning keeps the labels of the blobs distinct, and the label it
/// yields is that of the blob holding `bytes`.
pub proof fn lemma_intern_labels_unique(c: usize, d: DataView, name: Seq<char>, bytes: Seq<u8>)
    requires
        data_names(d).no_duplicates(),
        d.len() <= usize::MAX,
    ensures
        data_names(intern_spec(c, d, name, bytes).2).no_duplicates(),
        exists|i: int| 0 <= i < intern_spec(c, d, name, bytes).2.len()
            && #[trigger] intern_spec(c, d, name, bytes).2[i] == (intern_spec(c, d, name, bytes).0, bytes),
{
    let (label, c1, d1) = intern_spec(c, d, name, bytes);
    match find_data(d, bytes) {
        Some(i) => {
            lemma_find_data_some(d, bytes);
            assert(d1[i] == (label, bytes));
        },
        None => {
            if data_has_name(d, name) {
                lemma_free_counter_free(d, name, c);
            }
            assert(!data_has_name(d, label));
            assert(data_names(d1) =~= data_names(d).push(label));
            assert forall|a: int, b: int| 0 <= a < d1.len() && 0 <= b < d1.len() && a != b
                implies data_names(d1)[a] != data_names(d1)[b] by {
                if a == d.len() as int {
                    assert(d1[b] == d[b]);
                } else if b == d.len() as int {
                    assert(d1[a] == d[a]);
                } else {
                    assert(data_names(d1)[a] == data_names(d)[a]);
                    assert(data_names(d1)[b] == data_names(d)[b]);
                }
            }
            assert(d1[d.len() as int] == (label, bytes));
        },
    }
}

proof fn lemma_find_data_some(d: DataView, bytes: Seq<u8>)
    requires
        find_data(d, bytes) is Some,
    ensures
        0 <= find_data(d, bytes)->0 < d.len(),
        d[find_data(d, bytes)->0].1 == bytes,
    decreases d.len(),
{
    if find_data(d.drop_last(), bytes) is Some {
        lemma_find_data_some(d.drop_last(), bytes);
    }
}

/// The instructions, externs, symbols and data of one compiled module.
#[derive(Debug)]
pub struct ModuleCode {
    pub instructions: Vec<Instruction>,
    pub externs: Vec<String>,
    pub label_counter: usize,
    pub symbols: SymbolTable,
    /// Named, deduplicated byte blobs for the read-only data section.
    pub data_items: Vec<(String, Vec<u8>)>,
}

/// Byte-wise equality of two slices.
fn bytes_eq(a: &[u8], b: &[u8]) -> (r: bool)
    ensures
        r == (a@ == b@),
{
    if a.len() != b.len() {
        return false;
    }
    let mut i: usize = 0;
    while i < a.len()
        invariant
            a@.len() == b@.len(),
            i <= a@.len(),
            forall|k: int| 0 <= k < i ==> a@[k] == b@[k],
        decreases a@.len() - i,
    {
        if a[i] != b[i] {
            return false;
        }
        i = i + 1;
    }
    assert(a@ =~= b@);
    true
}

/// A fresh vector holding the bytes of a slice.
pub(crate) fn bytes_to_vec(b: &[u8]) -> (r: Vec<u8>)
    ensures
        r@ == b@,
{
    let mut v: Vec<u8> = Vec::new();
    let mut i: usize = 0;
    while i < b.len()
        invariant
            i <= b@.len(),
            v@ == b@.take(i as int),
        decreases b@.len() - i,
    {
        v.push(b[i]);
        i = i + 1;
        assert(v@ =~= b@.take(i as int));
    }
    assert(b@.take(i as int) =~= b@);
    v
}

proof fn lemma_find_data_prefix(d: DataView, bytes: Seq<u8>, i: int)
    requires
        0 <= i <= d.len(),
        forall|k: int| 0 <= k < i ==> #[trigger] d[k].1 != bytes,
    ensures
        find_data(d.take(i), bytes) is None,
    decreases i,
{
    if i > 0 {
        assert(d.take(i).drop_last() =~= d.take(i - 1));
        lemma_find_data_prefix(d, bytes, i - 1);
    }
}

proof fn lemma_find_data_first(d: DataView, bytes: Seq<u8>, i: int)
    requires
        0 <= i < d.len(),
        d[i].1 == bytes,
        forall|k: int| 0 <= k < i ==> #[trigger] d[k].1 != bytes,
    ensures
        find_data(d, bytes) == Some(i),
    decreases d.len(),
{
    if i == d.len() - 1 {
        lemma_find_data_prefix(d, bytes, i);
        assert(d.take(i) =~= d.drop_last());
    } else {
        lemma_find_data_first(d.drop_last(), bytes, i);
    }
}

proof fn lemma_find_data_none(d: DataView, bytes: Seq<u8>)
    requires
        forall|k: int| 0 <= k < d.len() ==> #[trigger] d[k].1 != bytes,
    ensures
        find_data(d, bytes) is None,
{
    lemma_find_data_prefix(d, bytes, d.len() as int);
    assert(d.take(d.len() as int) =~= d);
}

impl ModuleCode {
    /// An empty module.
    pub fn new(_name: &str) -> (r: Self)
        ensures
            r.instructions@.len() == 0,
            r.externs@.len() == 0,
            r.label_counter == 0,
            r.symbols@ == (Seq::<(Seq<char>, i64)>::empty(), 0i64),
            r.data_items@.len() == 0,
    {
        ModuleCode {
            instructions: Vec::new(),
            externs: Vec::new(),
            label_counter: 0,
            symbols: SymbolTable::default(),
            data_items: Vec::new(),
        }
    }

    /// Appends one instruction.
    pub fn emit(&mut self, instr: Instruction)
        ensures
            final(self).instructions@ == old(self).instructions@.push(instr),
            instrs_view(final(self).instructions@) == instrs_view(old(self).instructions@).push(instr@),
            final(self).externs == old(self).externs,
            final(self).label_counter == old(self).label_counter,
            final(self).symbols == old(self).symbols,
            final(self).data_items == old(self).data_items,
    {
        let ghost i = instr;
        self.instructions.push(instr);
        proof {
            lemma_instrs_view_push(old(self).instructions@, i);
        }
    }

    /// A fresh label `.L<prefix>_<n>`, where `n` is the label counter, which
    /// then advances.
    pub fn new_label(&mut self, prefix: &str) -> (r: String)
        ensures
            r@ == label_text(prefix@, old(self).label_counter),
            final(self).label_counter == next_count(old(self).label_counter),
            final(self).instructions == old(self).instructions,
            final(self).externs == old(self).externs,
            final(self).symbols == old(self).symbols,
            final(self).data_items == old(self).data_items,
    {
        let mut label = string_of(".L");
        push_str(&mut label, prefix);
        push_str(&mut label, "_");
        push_nat(&mut label, self.label_counter as u64);
        self.label_counter = if self.label_counter == usize::MAX { 0 } else { self.label_counter + 1 };
        assert(label@ =~= label_text(prefix@, old(self).label_counter));
        label
    }

    /// Declares an external symbol once.
    pub fn add_extern(&mut self, sym: &str)
        ensures
            strs_view(final(self).externs@) == extern_add(strs_view(old(self).externs@), sym@),
            final(self).instructions == old(self).instructions,
            final(self).label_counter == old(self).label_counter,
            final(self).symbols == old(self).symbols,
            final(self).data_items == old(self).data_items,
    {
        let key = string_of(sym);
        let mut i: usize = 0;
        while i < self.externs.len()
            invariant
                i <= self.externs@.len(),
                key@ == sym@,
                forall|k: int| 0 <= k < i ==> #[trigger] self.externs@[k]@ != sym@,
            decreases self.externs@.len() - i,
        {
            if self.externs[i] == key {
                proof {
                    assert(strs_view(self.externs@)[i as int] == sym@);
                }
                return;
            }
            i = i + 1;
        }
        proof {
            assert forall|k: int| 0 <= k < strs_view(self.externs@).len()
                implies strs_view(self.externs@)[k] != sym@ by {
                assert(self.externs@[k]@ != sym@);
            }
        }
        self.externs.push(key);
        assert(strs_view(self.externs@) =~= strs_view(old(self).externs@).push(sym@));
    }

    /// Interns a byte blob, deduplicating by payload, and returns the label
    /// to reference from code (see `intern_spec`); labels stay unique.
    pub fn intern_data(&mut self, name: &str, bytes: &[u8]) -> (r: String)
        ensures
            ({
                let (label, c, d) = intern_spec(
                    old(self).label_counter, data_view(old(self).data_items@), name@, bytes@);
                &&& r@ == label
                &&& final(self).label_counter == c
                &&& data_view(final(self).data_items@) == d
            }),
            data_names(data_view(old(self).data_items@)).no_duplicates()
                ==> data_names(data_view(final(self).data_items@)).no_duplicates(),
            final(self).instructions == old(self).instructions,
            final(self).externs == old(self).externs,
            final(self).symbols == old(self).symbols,
    {
        let ghost d0 = data_view(self.data_items@);
        let n0 = self.data_items.len();
        assert(d0.len() <= usize::MAX);
        proof {
            if data_names(d0).no_duplicates() {
                lemma_intern_labels_unique(old(self).label_counter, d0, name@, bytes@);
            }
        }
        let mut i: usize = 0;
        while i < self.data_items.len()
            invariant
                i <= self.data_items@.len(),
                d0 == data_view(self.data_items@),
                forall|k: int| 0 <= k < i ==> #[trigger] d0[k].1 != bytes@,
            decreases self.data_items@.len() - i,
        {
            if bytes_eq(self.data_items[i].1.as_slice(), bytes) {
                proof {
                    lemma_find_data_first(d0, bytes@, i as int);
                }
                return self.data_items[i].0.clone();
            }
            i = i + 1;
        }
        proof {
            lemma_find_data_none(d0, bytes@);
        }
        let key = string_of(name);
        let taken = has_data_name(&self.data_items, &key);
        let label = if taken {
            let ghost c0 = old(self).label_counter;
            let ghost goal = free_counter(d0, name@, c0, d0.len());
            proof {
                lemma_free_counter_free(d0, name@, c0);
            }
            let mut k: usize = self.label_counter;
            let mut u = suffixed_string(name, k);
            let ghost mut fuel: nat = d0.len();
            while has_data_name(&self.data_items, &u)
                invariant
                    d0 == data_view(self.data_items@),
                    u@ == suffixed(name@, k),
                    goal == free_counter(d0, name@, c0, d0.len()),
                    goal == free_counter(d0, name@, k, fuel),
                    !data_has_name(d0, suffixed(name@, goal)),
                decreases fuel,
            {
                k = if k == usize::MAX { 0 } else { k + 1 };
                u = suffixed_string(name, k);
                proof {
                    fuel = (fuel - 1) as nat;
                }
            }
            self.label_counter = if k == usize::MAX { 0 } else { k + 1 };
            u
        } else {
            key
        };
        let copy = bytes_to_vec(bytes);
        self.data_items.push((label.clone(), copy));
        assert(data_view(self.data_items@) =~= d0.push((label@, bytes@)));
        label
    }
}

/// `name_<c>` as a string.
fn suffixed_string(name: &str, c: usize) -> (r: String)
    ensures
        r@ == suffixed(name@, c),
{
    let mut u = string_of(name);
    push_str(&mut u, "_");
    push_nat(&mut u, c as u64);
    assert(u@ =~= suffixed(name@, c));
    u
}

/// Whether some blob carries the label `name`.
fn has_data_name(items: &Vec<(String, Vec<u8>)>, name: &String) -> (r: bool)
    ensures
        r == data_has_name(data_view(items@), name@),
{
    let ghost d = data_view(items@);
    let mut j: usize = 0;
    while j < items.len()
        invariant
            j <= items@.len(),
            d == data_view(items@),
            forall|k: int| 0 <= k < j ==> #[trigger] d[k].0 != name@,
        decreases items@.len() - j,
    {
        if items[j].0 == *name {
            assert(d[j as int].0 == name@);
            return true;
        }
        j = j + 1;
    }
    false
}

// ============================================================================
// Lowering specification
// ============================================================================

/// The part of a module's state that lowering threads through: the label
/// counter, the interned data and the extern list.
pub struct GenState {
    pub counter: usize,
    pub data: DataView,
    pub externs: Seq<Seq<char>>,
}

/// The lowering state of a module.
pub open spec fn gen_state(code: ModuleCode) -> GenState {
    GenState {
        counter: code.label_counter,
        data: data_view(code.data_items@),
        externs: strs_view(code.externs@),
    }
}

/// A 64-bit register operand.
pub open spec fn rq(r: Register) -> OperandV {
    OperandV::Register(r, OperandSize::Qword)
}

/// The stack slot `[rbp - off]`.
pub open spec fn slot(off: i64) -> OperandV {
    OperandV::Memory { base: Some(Register::RBP), index: None, displacement: (-off) as i64, size: OperandSize::Qword }
}

/// `push rax`.
pub open spec fn push_rax() -> InstrV {
    InstrV::Push(rq(Register::RAX))
}

/// `pop <reg>`.
pub open spec fn pop_q(r: Register) -> InstrV {
    InstrV::Pop(rq(r))
}

/// Call of `target` followed by the release of the shadow space.
pub open spec fn call_cleanup(target: Seq<char>, n: usize) -> Seq<InstrV> {
    seq![
        InstrV::Call { target, arg_count: n },
        InstrV::Add { dest: rq(Register::RSP), src: OperandV::Immediate(SHADOW_SPACE) },
    ]
}

/// `cmp rax, rcx` followed by `set<cond> al; movzx rax, al`.
pub open spec fn compare_code(cond: Conditional) -> Seq<InstrV> {
    seq![
        InstrV::Cmp { left: rq(Register::RAX), right: rq(Register::RCX) },
        InstrV::Setcc { cond, dest: OperandV::Register(Register::RAX, OperandSize::Byte) },
        InstrV::Movzx { dest: rq(Register::RAX), src: OperandV::Register(Register::RAX, OperandSize::Byte) },
    ]
}

/// The instructions combining RAX (left operand) and RCX (right operand)
/// into RAX.
pub open spec fn binop_code(op: BinaryOp) -> Seq<InstrV> {
    let rax = rq(Register::RAX);
    let rcx = rq(Register::RCX);
    match op {
        BinaryOp::Add => seq![InstrV::Add { dest: rax, src: rcx }],
        BinaryOp::Sub => seq![InstrV::Sub { dest: rax, src: rcx }],
        BinaryOp::Mul => seq![InstrV::Imul { dest: rax, src: rcx }],
        BinaryOp::Div => seq![InstrV::Cqo, InstrV::Idiv { src: rcx }],
        BinaryOp::Mod => seq![
            InstrV::Cqo,
            InstrV::Idiv { src: rcx },
            InstrV::Mov { dest: rax, src: rq(Register::RDX) },
        ],
        BinaryOp::BitAnd => seq![InstrV::And { dest: rax, src: rcx }],
        BinaryOp::BitOr => seq![InstrV::Or { dest: rax, src: rcx }],
        BinaryOp::BitXor => seq![InstrV::Xor { dest: rax, src: rcx }],
        BinaryOp::Shl => seq![InstrV::Shl { dest: rax, count: OperandV::Register(Register::RCX, OperandSize::Byte) }],
        BinaryOp::Shr => seq![InstrV::Shr { dest: rax, count: OperandV::Register(Register::RCX, OperandSize::Byte) }],
        BinaryOp::Eq => compare_code(Conditional::E),
        BinaryOp::Ne => compare_code(Conditional::NE),
        BinaryOp::Lt => compare_code(Conditional::L),
        BinaryOp::Le => compare_code(Conditional::LE),
        BinaryOp::Gt => compare_code(Conditional::G),
        BinaryOp::Ge => compare_code(Conditional::GE),
    }
}

/// The instructions applying a prefix operator to RAX; logical not takes a
/// fresh `zero` label from counter `c`.
pub open spec fn unop_code(op: UnaryOp, c: usize) -> Seq<InstrV> {
    let rax = rq(Register::RAX);
    match op {
        UnaryOp::Pos => Seq::empty(),
        UnaryOp::Negate => seq![InstrV::Neg { dest: rax }],
        UnaryOp::Not => seq![
            InstrV::Test { left: rax, right: rax },
            InstrV::Mov { dest: rax, src: OperandV::Immediate(1) },
            InstrV::Je(label_text("zero"@, c)),
            InstrV::Mov { dest: rax, src: OperandV::Immediate(0) },
            InstrV::Label(label_text("zero"@, c)),
        ],
        UnaryOp::BitNot => seq![InstrV::Xor { dest: rax, src: OperandV::Immediate(-1i64) }],
    }
}

/// The message for a variable with no slot.
pub open spec fn undeclared_message(name: Seq<char>, module: Seq<char>) -> Seq<char> {
    "use of undeclared variable '"@ + name + "' in module '"@ + module + "'"@
}

/// The null-terminated UTF-8 bytes of a string literal.
pub open spec fn c_string(s: Seq<char>) -> Seq<u8> {
    vstd::utf8::encode_utf8(s).push(0u8)
}

/// The register that carries argument `i` (`i < 4`).
pub open spec fn arg_reg(i: int) -> Register {
    if i == 0 { Register::RCX } else if i == 1 { Register::RDX } else if i == 2 { Register::R8 } else { Register::R9 }
}

/// `pop` of the first `k` argument registers, in order.
pub open spec fn pop_args(k: int) -> Seq<InstrV>
    decreases k,
{
    if k <= 0 { Seq::empty() } else { pop_args(k - 1).push(pop_q(arg_reg(k - 1))) }
}

/// `pop <r>` repeated `k` times.
pub open spec fn pops(r: Register, k: int) -> Seq<InstrV>
    decreases k,
{
    if k <= 0 { Seq::empty() } else { pops(r, k - 1).push(pop_q(r)) }
}

/// The last of `k` pushed values popped into `keep`, and the other `k - 1`
/// thrown away into `drop`.
pub open spec fn pop_last(keep: Register, drop: Register, k: int) -> Seq<InstrV> {
    seq![pop_q(keep)] + pops(drop, k - 1)
}

/// Lowering of an expression with symbol table `sy` in module `m`: the
/// instructions (which leave the value pushed on the stack) and the state
/// afterwards, or the error message.
pub open spec fn gen_expr(sy: Seq<(Seq<char>, i64)>, m: Seq<char>, st: GenState, e: Expression)
    -> Result<(Seq<InstrV>, GenState), Seq<char>>
    decreases e, 0int,
{
    let rax = rq(Register::RAX);
    match e {
        Expression::Literal(lit) => match lit.value {
            LiteralValue::String(s) => {
                let (label, c, d) = intern_spec(st.counter, st.data, "str"@, c_string(s@));
                Ok((
                    seq![InstrV::Lea { dest: rax, src: OperandV::Label(label) }, push_rax()],
                    GenState { counter: c, data: d, externs: st.externs },
                ))
            },
            LiteralValue::Int(v) => Ok((seq![InstrV::Mov { dest: rax, src: OperandV::Immediate(v) }, push_rax()], st)),
            LiteralValue::Float(f) => Ok((
                seq![InstrV::Mov { dest: rax, src: OperandV::Immediate(f.bits as i64) }, push_rax()],
                st,
            )),
        },
        Expression::Variable(v) => match slot_lookup(sy, v.name@) {
            Some(off) => Ok((seq![InstrV::Mov { dest: rax, src: slot(off) }, push_rax()], st)),
            None => Err(undeclared_message(v.name@, m)),
        },
        Expression::Binary { op, left, right } => match gen_expr(sy, m, st, *left) {
            Err(msg) => Err(msg),
            Ok((c1, st1)) => match gen_expr(sy, m, st1, *right) {
                Err(msg) => Err(msg),
                Ok((c2, st2)) => Ok((
                    c1 + c2 + seq![pop_q(Register::RCX), pop_q(Register::RAX)] + binop_code(op) + seq![push_rax()],
                    st2,
                )),
            },
        },
        Expression::Unary { op, operand } => match gen_expr(sy, m, st, *operand) {
            Err(msg) => Err(msg),
            Ok((c1, st1)) => {
                let st2 = if op == UnaryOp::Not {
                    GenState { counter: next_count(st1.counter), data: st1.data, externs: st1.externs }
                } else {
                    st1
                };
                Ok((c1 + seq![pop_q(Register::RAX)] + unop_code(op, st1.counter) + seq![push_rax()], st2))
            },
        },
        Expression::Call { name, args } => match gen_args_rev(sy, m, st, args@, 0) {
            Err(msg) => Err(msg),
            Ok((c1, st1)) => {
                let n = args@.len();
                Ok((
                    seq![InstrV::Sub { dest: rq(Register::RSP), src: OperandV::Immediate(SHADOW_SPACE) }]
                        + c1
                        + pop_args(if n < 4 { n as int } else { 4 })
                        + (if n > 4 {
                            seq![InstrV::Add { dest: rq(Register::RSP), src: OperandV::Immediate(((n - 4) * 8) as i64) }]
                        } else {
                            Seq::empty()
                        })
                        + call_cleanup(name@, n as usize)
                        + seq![push_rax()],
                    st1,
                ))
            },
        },
    }
}

/// Lowering of the arguments `args[i..]` from the last to the first, so
/// that the first argument ends on top of the stack.
pub open spec fn gen_args_rev(sy: Seq<(Seq<char>, i64)>, m: Seq<char>, st: GenState, args: Seq<Expression>, i: int)
    -> Result<(Seq<InstrV>, GenState), Seq<char>>
    decreases args, args.len() - i,
{
    if i < 0 || i >= args.len() {
        Ok((Seq::empty(), st))
    } else {
        match gen_args_rev(sy, m, st, args, i + 1) {
            Err(msg) => Err(msg),
            Ok((c1, st1)) => match gen_expr(sy, m, st1, args[i]) {
                Err(msg) => Err(msg),
                Ok((c2, st2)) => Ok((c1 + c2, st2)),
            },
        }
    }
}

/// What a failed lowering of `e` leaves behind: the instructions emitted
/// before the error was found, and the state at that point. Meaningful where
/// `gen_expr(sy, m, st, e)` is an error.
pub open spec fn expr_partial(sy: Seq<(Seq<char>, i64)>, m: Seq<char>, st: GenState, e: Expression)
    -> (Seq<InstrV>, GenState)
    decreases e, 0int,
{
    match e {
        Expression::Binary { left, right, .. } => match gen_expr(sy, m, st, *left) {
            Err(_) => expr_partial(sy, m, st, *left),
            Ok((c1, st1)) => {
                let (c2, st2) = expr_partial(sy, m, st1, *right);
                (c1 + c2, st2)
            },
        },
        Expression::Unary { operand, .. } => expr_partial(sy, m, st, *operand),
        Expression::Call { args, .. } => {
            let (c, st2) = args_partial(sy, m, st, args@, 0);
            (seq![InstrV::Sub { dest: rq(Register::RSP), src: OperandV::Immediate(SHADOW_SPACE) }] + c, st2)
        },
        _ => (Seq::empty(), st),
    }
}

/// What a failed lowering of `args[i..]` (last to first) leaves behind:
/// the arguments lowered before the failing one, then what the failing one
/// left. Meaningful where `gen_args_rev(sy, m, st, args, i)` is an error.
pub open spec fn args_partial(sy: Seq<(Seq<char>, i64)>, m: Seq<char>, st: GenState, args: Seq<Expression>, i: int)
    -> (Seq<InstrV>, GenState)
    decreases args, args.len() - i,
{
    if i < 0 || i >= args.len() {
        (Seq::empty(), st)
    } else {
        match gen_args_rev(sy, m, st, args, i + 1) {
            Err(_) => args_partial(sy, m, st, args, i + 1),
            Ok((c1, st1)) => {
                let (c2, st2) = expr_partial(sy, m, st1, args[i]);
                (c1 + c2, st2)
            },
        }
    }
}

/// Lowering of the first `k` expressions of `args`, left to right.
pub open spec fn gen_args_fwd(sy: Seq<(Seq<char>, i64)>, m: Seq<char>, st: GenState, args: Seq<Expression>, k: int)
    -> Result<(Seq<InstrV>, GenState), Seq<char>>
    decreases k,
{
    if k <= 0 || k > args.len() {
        Ok((Seq::empty(), st))
    } else {
        match gen_args_fwd(sy, m, st, args, k - 1) {
            Err(msg) => Err(msg),
            Ok((c1, st1)) => match gen_expr(sy, m, st1, args[k - 1]) {
                Err(msg) => Err(msg),
                Ok((c2, st2)) => Ok((c1 + c2, st2)),
            },
        }
    }
}

/// Every call in the expression has few enough arguments that the bytes
/// they occupy on the stack fit an `i64` immediate.
pub open spec fn expr_fits(e: Expression) -> bool
    decreases e, 0int,
{
    match e {
        Expression::Binary { left, right, .. } => expr_fits(*left) && expr_fits(*right),
        Expression::Unary { operand, .. } => expr_fits(*operand),
        Expression::Call { args, .. } => args@.len() <= i64::MAX / 8 && args_fit(args@, 0),
        _ => true,
    }
}

/// `expr_fits` for `args[i..]`.
pub open spec fn args_fit(args: Seq<Expression>, i: int) -> bool
    decreases args, args.len() - i,
{
    if i < 0 || i >= args.len() {
        true
    } else {
        expr_fits(args[i]) && args_fit(args, i + 1)
    }
}


// ---------------------------------------------------------------------------
// Statement lowering specification
// ---------------------------------------------------------------------------

/// What statement lowering reads: the symbol table, the module name (for
/// messages), the output format and the epilogue label of the function
/// being lowered, if any.
pub struct GenCtx {
    pub sy: Seq<(Seq<char>, i64)>,
    pub module: Seq<char>,
    pub format: OutputFormat,
    pub epilogue: Option<Seq<char>>,
}

/// The state with a different counter.
pub open spec fn with_counter(st: GenState, c: usize) -> GenState {
    GenState { counter: c, data: st.data, externs: st.externs }
}

/// The state with `sym` declared as an extern.
pub open spec fn with_extern(st: GenState, sym: Seq<char>) -> GenState {
    GenState { counter: st.counter, data: st.data, externs: extern_add(st.externs, sym) }
}

/// `sub rsp, 32`.
pub open spec fn reserve_shadow() -> InstrV {
    InstrV::Sub { dest: rq(Register::RSP), src: OperandV::Immediate(SHADOW_SPACE) }
}

/// `cmp rax, 0`.
pub open spec fn test_rax_zero() -> InstrV {
    InstrV::Cmp { left: rq(Register::RAX), right: OperandV::Immediate(0) }
}

/// Whether an expression is a string literal.
pub open spec fn is_string_literal(e: Expression) -> bool {
    e matches Expression::Literal(lit) && lit.value is String
}

/// `%s\n\0`.
pub open spec fn fmt_str_bytes() -> Seq<u8> {
    seq![37u8, 115u8, 10u8, 0u8]
}

/// `%lld\n\0`.
pub open spec fn fmt_i64_bytes() -> Seq<u8> {
    seq![37u8, 108u8, 108u8, 100u8, 10u8, 0u8]
}

/// `print(args)`: every argument is evaluated; the last value is popped into
/// RAX and the others are thrown away; the last value is printed with a trailing newline (`printf`, or the runtime helpers of the
/// Rust output), as a string when the last argument is a string literal.
pub open spec fn print_code(ctx: GenCtx, st: GenState, args: Seq<Expression>)
    -> Result<(Seq<InstrV>, GenState), Seq<char>>
{
    if args.len() == 0 {
        Ok((Seq::empty(), st))
    } else {
        match gen_args_fwd(ctx.sy, ctx.module, st, args, args.len() as int) {
            Err(msg) => Err(msg),
            Ok((c1, st1)) => {
                let is_str = is_string_literal(args.last());
                let head = c1 + pop_last(Register::RAX, Register::RCX, args.len() as int) + seq![reserve_shadow()];
                if ctx.format == OutputFormat::RustSource {
                    let target = if is_str { "bxen_print_str"@ } else { "bxen_print_int"@ };
                    Ok((
                        head + seq![InstrV::Mov { dest: rq(Register::RCX), src: rq(Register::RAX) }]
                            + call_cleanup(target, 1),
                        with_extern(st1, target),
                    ))
                } else {
                    let (label, c, d) = if is_str {
                        intern_spec(st1.counter, st1.data, "fmt_str_newline"@, fmt_str_bytes())
                    } else {
                        intern_spec(st1.counter, st1.data, "fmt_i64_newline"@, fmt_i64_bytes())
                    };
                    Ok((
                        head + seq![
                            InstrV::Lea { dest: rq(Register::RCX), src: OperandV::Label(label) },
                            InstrV::Mov { dest: rq(Register::RDX), src: rq(Register::RAX) },
                        ] + call_cleanup("printf"@, 2),
                        GenState { counter: c, data: d, externs: extern_add(st1.externs, "printf"@) },
                    ))
                }
            },
        }
    }
}

/// A one-argument extern sink: the extern is declared, every argument is
/// evaluated, the last value is popped into RCX (the others are thrown
/// away), and `target` is called with it.
pub open spec fn extern_sink_code(ctx: GenCtx, st: GenState, args: Seq<Expression>, target: Seq<char>)
    -> Result<(Seq<InstrV>, GenState), Seq<char>>
{
    let st0 = with_extern(st, target);
    if args.len() == 0 {
        Ok((Seq::empty(), st0))
    } else {
        match gen_args_fwd(ctx.sy, ctx.module, st0, args, args.len() as int) {
            Err(msg) => Err(msg),
            Ok((c1, st1)) => Ok((
                c1 + pop_last(Register::RCX, Register::RAX, args.len() as int) + seq![reserve_shadow()] + call_cleanup(target, 1),
                st1,
            )),
        }
    }
}

/// The message for a sink with no lowering.
pub open spec fn unknown_sink_message(name: Seq<char>) -> Seq<char> {
    "unknown sink '"@ + name + "'"@
}

/// Lowering of `name(args).sink`: `print`, `puts` and `putchar` are known.
pub open spec fn sink_code(ctx: GenCtx, st: GenState, sink: SinkCall) -> Result<(Seq<InstrV>, GenState), Seq<char>> {
    let rust = ctx.format == OutputFormat::RustSource;
    if sink.name@ == "print"@ {
        print_code(ctx, st, sink.args@)
    } else if sink.name@ == "puts"@ {
        extern_sink_code(ctx, st, sink.args@, if rust { "bxen_print_str"@ } else { "puts"@ })
    } else if sink.name@ == "putchar"@ {
        extern_sink_code(ctx, st, sink.args@, if rust { "bxen_putchar"@ } else { "putchar"@ })
    } else {
        Err(unknown_sink_message(sink.name@))
    }
}

/// The message for `return` outside a function.
pub open spec fn stray_return_message() -> Seq<char> {
    "return statement outside of function body"@
}

/// Lowering of one statement; the value stack is left as it was.
pub open spec fn gen_stmt(ctx: GenCtx, st: GenState, s: Statement) -> Result<(Seq<InstrV>, GenState), Seq<char>>
    decreases s, 0int,
{
    match s {
        Statement::Expression(e) => match gen_expr(ctx.sy, ctx.module, st, e) {
            Err(msg) => Err(msg),
            Ok((c1, st1)) => Ok((c1 + seq![pop_q(Register::RAX)], st1)),
        },
        Statement::Assignment(a) => match gen_expr(ctx.sy, ctx.module, st, a.value) {
            Err(msg) => Err(msg),
            Ok((c1, st1)) => Ok((
                c1 + seq![pop_q(Register::RAX)] + match slot_lookup(ctx.sy, a.name@) {
                    Some(off) => seq![InstrV::Mov { dest: slot(off), src: rq(Register::RAX) }],
                    None => Seq::empty(),
                },
                st1,
            )),
        },
        Statement::Sink(k) => sink_code(ctx, st, k),
        Statement::Return(r) => {
            let value = match r.value {
                Some(v) => match gen_expr(ctx.sy, ctx.module, st, v) {
                    Err(msg) => Err(msg),
                    Ok((c1, st1)) => Ok((c1 + seq![pop_q(Register::RAX)], st1)),
                },
                None => Ok((Seq::empty(), st)),
            };
            match value {
                Err(msg) => Err(msg),
                Ok((c1, st1)) => match ctx.epilogue {
                    None => Err(stray_return_message()),
                    Some(ep) => Ok((c1 + seq![InstrV::Jmp(ep)], st1)),
                },
            }
        },
        Statement::If { condition, then_branch, else_branch } => match gen_expr(ctx.sy, ctx.module, st, condition) {
            Err(msg) => Err(msg),
            Ok((c1, st1)) => {
                let else_l = label_text("else"@, st1.counter);
                let end_l = label_text("end"@, next_count(st1.counter));
                let st2 = with_counter(st1, next_count(next_count(st1.counter)));
                match gen_stmts(ctx, st2, then_branch@, then_branch@.len() as int) {
                    Err(msg) => Err(msg),
                    Ok((c2, st3)) => {
                        let els = match else_branch {
                            Some(b) => gen_stmts(ctx, st3, b@, b@.len() as int),
                            None => Ok((Seq::empty(), st3)),
                        };
                        match els {
                            Err(msg) => Err(msg),
                            Ok((c3, st4)) => Ok((
                                c1 + seq![pop_q(Register::RAX), test_rax_zero(), InstrV::Je(else_l)] + c2
                                    + seq![InstrV::Jmp(end_l), InstrV::Label(else_l)] + c3
                                    + seq![InstrV::Label(end_l)],
                                st4,
                            )),
                        }
                    },
                }
            },
        },
        Statement::While { condition, body } => {
            let start_l = label_text("start"@, st.counter);
            let end_l = label_text("end"@, next_count(st.counter));
            let st1 = with_counter(st, next_count(next_count(st.counter)));
            match gen_expr(ctx.sy, ctx.module, st1, condition) {
                Err(msg) => Err(msg),
                Ok((c1, st2)) => match gen_stmts(ctx, st2, body@, body@.len() as int) {
                    Err(msg) => Err(msg),
                    Ok((c2, st3)) => Ok((
                        seq![InstrV::Label(start_l)] + c1
                            + seq![pop_q(Register::RAX), test_rax_zero(), InstrV::Je(end_l)] + c2
                            + seq![InstrV::Jmp(start_l), InstrV::Label(end_l)],
                        st3,
                    )),
                },
            }
        },
    }
}

/// Lowering of the first `k` statements of a block, in order.
pub open spec fn gen_stmts(ctx: GenCtx, st: GenState, list: Seq<Statement>, k: int)
    -> Result<(Seq<InstrV>, GenState), Seq<char>>
    decreases list, k,
{
    if k <= 0 || k > list.len() {
        Ok((Seq::empty(), st))
    } else {
        match gen_stmts(ctx, st, list, k - 1) {
            Err(msg) => Err(msg),
            Ok((c1, st1)) => match gen_stmt(ctx, st1, list[k - 1]) {
                Err(msg) => Err(msg),
                Ok((c2, st2)) => Ok((c1 + c2, st2)),
            },
        }
    }
}

/// `expr_fits` for every expression of a statement.
pub open spec fn stmt_fits(s: Statement) -> bool
    decreases s, 0int,
{
    match s {
        Statement::Expression(e) => expr_fits(e),
        Statement::Assignment(a) => expr_fits(a.value),
        Statement::Sink(k) => args_fit(k.args@, 0),
        Statement::Return(r) => match r.value { Some(v) => expr_fits(v), None => true },
        Statement::If { condition, then_branch, else_branch } =>
            expr_fits(condition) && stmts_fit(then_branch@, 0) && match else_branch {
                Some(b) => stmts_fit(b@, 0),
                None => true,
            },
        Statement::While { condition, body } => expr_fits(condition) && stmts_fit(body@, 0),
    }
}

/// `stmt_fits` for `list[i..]`.
pub open spec fn stmts_fit(list: Seq<Statement>, i: int) -> bool
    decreases list, list.len() - i,
{
    if i < 0 || i >= list.len() {
        true
    } else {
        stmt_fits(list[i]) && stmts_fit(list, i + 1)
    }
}

proof fn lemma_stmts_fit_at(list: Seq<Statement>, i: int, j: int)
    requires
        0 <= i <= j < list.len(),
        stmts_fit(list, i),
    ensures
        stmt_fits(list[j]),
    decreases j - i,
{
    if i < j {
        lemma_stmts_fit_at(list, i + 1, j);
    }
}


/// The lowering result `r` agrees with the specified `spec`: success with
/// the specified instructions appended and state reached, or the specified
/// error message.
pub open spec fn lowered(spec: Result<(Seq<InstrV>, GenState), Seq<char>>, r: Result<(), String>,
    before: Seq<InstrV>, after: Seq<InstrV>, st_after: GenState) -> bool
{
    match spec {
        Ok((is, st)) => r is Ok && after == before + is && st_after == st,
        Err(msg) => r matches Err(m) && m@ == msg && before.is_prefix_of(after),
    }
}

/// A prefix of a prefix is a prefix.
proof fn lemma_prefix_trans(a: Seq<InstrV>, b: Seq<InstrV>, c: Seq<InstrV>)
    requires
        a.is_prefix_of(b),
        b.is_prefix_of(c),
    ensures
        a.is_prefix_of(c),
{
    assert(c.subrange(0, a.len() as int) =~= b.subrange(0, b.len() as int).subrange(0, a.len() as int));
}

proof fn lemma_stmts_err(ctx: GenCtx, st: GenState, list: Seq<Statement>, j: int, k: int)
    requires
        0 < j <= k <= list.len(),
        gen_stmts(ctx, st, list, j) is Err,
    ensures
        gen_stmts(ctx, st, list, k) == gen_stmts(ctx, st, list, j),
    decreases k - j,
{
    if j < k {
        lemma_stmts_err(ctx, st, list, j, k - 1);
    }
}

proof fn lemma_args_fwd_err(sy: Seq<(Seq<char>, i64)>, m: Seq<char>, st: GenState, args: Seq<Expression>, j: int, k: int)
    requires
        0 < j <= k <= args.len(),
        gen_args_fwd(sy, m, st, args, j) is Err,
    ensures
        gen_args_fwd(sy, m, st, args, k) == gen_args_fwd(sy, m, st, args, j),
    decreases k - j,
{
    if j < k {
        lemma_args_fwd_err(sy, m, st, args, j, k - 1);
    }
}


// ---------------------------------------------------------------------------
// Local declarations
// ---------------------------------------------------------------------------

/// The table after reserving slots for the assignments of a statement (in
/// nested blocks too), skipping names that already have one.
pub open spec fn decl_stmt(t: SymView, s: Statement) -> SymView
    decreases s, 0int,
{
    match s {
        Statement::Assignment(a) =>
            if slot_lookup(t.0, a.name@) is None { sym_declare(t, a.name@) } else { t },
        Statement::If { then_branch, else_branch, .. } => {
            let t1 = decl_stmts(t, then_branch@, then_branch@.len() as int);
            match else_branch {
                Some(b) => decl_stmts(t1, b@, b@.len() as int),
                None => t1,
            }
        },
        Statement::While { body, .. } => decl_stmts(t, body@, body@.len() as int),
        _ => t,
    }
}

/// `decl_stmt` over the first `k` statements of a block.
pub open spec fn decl_stmts(t: SymView, list: Seq<Statement>, k: int) -> SymView
    decreases list, k,
{
    if k <= 0 || k > list.len() {
        t
    } else {
        decl_stmt(decl_stmts(t, list, k - 1), list[k - 1])
    }
}

/// The number of assignments in a statement, nested blocks included.
pub open spec fn assign_count(s: Statement) -> nat
    decreases s, 0int,
{
    match s {
        Statement::Assignment(_) => 1,
        Statement::If { then_branch, else_branch, .. } =>
            assign_counts(then_branch@, then_branch@.len() as int) + match else_branch {
                Some(b) => assign_counts(b@, b@.len() as int),
                None => 0,
            },
        Statement::While { body, .. } => assign_counts(body@, body@.len() as int),
        _ => 0,
    }
}

/// `assign_count` over the first `k` statements of a block.
pub open spec fn assign_counts(list: Seq<Statement>, k: int) -> nat
    decreases list, k,
{
    if k <= 0 || k > list.len() {
        0
    } else {
        assign_counts(list, k - 1) + assign_count(list[k - 1])
    }
}

/// `t2` extends the declarations of `t1`.
pub open spec fn sym_extends(t1: SymView, t2: SymView) -> bool {
    &&& t1.0.len() <= t2.0.len()
    &&& t2.0.subrange(0, t1.0.len() as int) == t1.0
    &&& t1.1 <= t2.1
}

proof fn lemma_decl_stmt(t: SymView, s: Statement)
    requires
        sym_wf(t),
        t.1 + 8 * assign_count(s) <= i64::MAX,
    ensures
        sym_wf(decl_stmt(t, s)),
        decl_stmt(t, s).1 <= t.1 + 8 * assign_count(s),
        sym_extends(t, decl_stmt(t, s)),
    decreases s, 0int,
{
    match s {
        Statement::Assignment(a) => {
            if slot_lookup(t.0, a.name@) is None {
                let t2 = sym_declare(t, a.name@);
                assert(t2.0.subrange(0, t.0.len() as int) =~= t.0);
            } else {
                assert(t.0.subrange(0, t.0.len() as int) =~= t.0);
            }
        },
        Statement::If { then_branch, else_branch, .. } => {
            lemma_decl_stmts(t, then_branch@, then_branch@.len() as int);
            let t1 = decl_stmts(t, then_branch@, then_branch@.len() as int);
            match else_branch {
                Some(b) => {
                    lemma_decl_stmts(t1, b@, b@.len() as int);
                    lemma_extends_trans(t, t1, decl_stmts(t1, b@, b@.len() as int));
                },
                None => {},
            }
        },
        Statement::While { body, .. } => {
            lemma_decl_stmts(t, body@, body@.len() as int);
        },
        _ => {
            assert(t.0.subrange(0, t.0.len() as int) =~= t.0);
        },
    }
}

proof fn lemma_decl_stmts(t: SymView, list: Seq<Statement>, k: int)
    requires
        sym_wf(t),
        t.1 + 8 * assign_counts(list, k) <= i64::MAX,
    ensures
        sym_wf(decl_stmts(t, list, k)),
        decl_stmts(t, list, k).1 <= t.1 + 8 * assign_counts(list, k),
        sym_extends(t, decl_stmts(t, list, k)),
    decreases list, k,
{
    if k <= 0 || k > list.len() {
        assert(t.0.subrange(0, t.0.len() as int) =~= t.0);
    } else {
        lemma_decl_stmts(t, list, k - 1);
        let t1 = decl_stmts(t, list, k - 1);
        lemma_decl_stmt(t1, list[k - 1]);
        lemma_extends_trans(t, t1, decl_stmt(t1, list[k - 1]));
    }
}

proof fn lemma_extends_trans(a: SymView, b: SymView, c: SymView)
    requires
        sym_extends(a, b),
        sym_extends(b, c),
    ensures
        sym_extends(a, c),
{
    assert(c.0.subrange(0, a.0.len() as int) =~= b.0.subrange(0, a.0.len() as int));
}

/// A name found in a table is still found in every extension of it.
proof fn lemma_lookup_extends(t1: SymView, t2: SymView, name: Seq<char>)
    requires
        sym_extends(t1, t2),
        slot_lookup(t1.0, name) is Some,
    ensures
        slot_lookup(t2.0, name) is Some,
    decreases t2.0.len(),
{
    if t2.0.len() > t1.0.len() {
        if t2.0.last().0 != name {
            let t3 = (t2.0.drop_last(), t2.1);
            assert(t3.0.subrange(0, t1.0.len() as int) =~= t2.0.subrange(0, t1.0.len() as int));
            lemma_lookup_extends(t1, t3, name);
        }
    } else {
        assert(t2.0 =~= t1.0);
    }
}


/// `n` rounded up to a multiple of 16.
pub open spec fn align16(n: int) -> int {
    (n + 15) - (n + 15) % 16
}

/// Rounds `n` up to the next multiple of 16 (the stack stays 16-byte
/// aligned across calls).
pub fn align_to_16(n: i64) -> (r: i64)
    requires
        n <= i64::MAX - 15,
    ensures
        r == align16(n as int),
{
    let m = n + 15;
    assert((m & !15i64) == m - m % 16) by (bit_vector);
    m & !15i64
}


// ---------------------------------------------------------------------------
// Functions and modules
// ---------------------------------------------------------------------------

/// The table after declaring the first `k` parameters (or inputs), one
/// fresh slot each.
pub open spec fn decl_params(t: SymView, ps: Seq<Parameter>, k: int) -> SymView
    decreases k,
{
    if k <= 0 || k > ps.len() {
        t
    } else {
        sym_declare(decl_params(t, ps, k - 1), ps[k - 1].name@)
    }
}

/// The empty table.
pub open spec fn empty_table() -> SymView {
    (Seq::empty(), 0i64)
}

/// Bytes reserved below the saved registers: shadow space, the locals
/// rounded up to 16, and 8 more so that RSP stays 16-byte aligned after the
/// two pushes of the prologue.
pub open spec fn frame_size(t: SymView) -> int {
    SHADOW_SPACE + align16(t.1 as int) + 8
}

/// Law: a frame is the shadow space, the locals rounded up to 16 bytes and
/// one more word, so it is 8 modulo 16: with the return address and the two
/// saved registers, the stack is 16-byte aligned after the prologue.
pub proof fn lemma_frame_aligned(t: SymView)
    requires
        0 <= t.1,
    ensures
        frame_size(t) % 16 == 8,
        frame_size(t) >= SHADOW_SPACE + 8,
        frame_size(t) >= SHADOW_SPACE + t.1 + 8,
{
    let n = t.1 as int;
    assert(align16(n) % 16 == 0 && align16(n) >= n) by {
        assert((n + 15) - (n + 15) % 16 >= n);
        assert(((n + 15) - (n + 15) % 16) % 16 == 0);
    }
}

/// `push rbx; push rbp; mov rbp, rsp; sub rsp, frame`.
pub open spec fn prologue(frame: i64) -> Seq<InstrV> {
    seq![
        InstrV::Push(rq(Register::RBX)),
        InstrV::Push(rq(Register::RBP)),
        InstrV::Mov { dest: rq(Register::RBP), src: rq(Register::RSP) },
        InstrV::Sub { dest: rq(Register::RSP), src: OperandV::Immediate(frame) },
    ]
}

/// `add rsp, frame; pop rbp; pop rbx; ret`.
pub open spec fn epilogue(frame: i64) -> Seq<InstrV> {
    seq![
        InstrV::Add { dest: rq(Register::RSP), src: OperandV::Immediate(frame) },
        pop_q(Register::RBP),
        pop_q(Register::RBX),
        InstrV::Ret,
    ]
}

/// Stores of the first `k` register parameters (at most four) to their
/// home slots.
pub open spec fn home_moves(t: SymView, ps: Seq<Parameter>, k: int) -> Seq<InstrV>
    decreases k,
{
    if k <= 0 || k > ps.len() {
        Seq::empty()
    } else if k > 4 {
        home_moves(t, ps, k - 1)
    } else {
        home_moves(t, ps, k - 1).push(InstrV::Mov {
            dest: slot(slot_lookup(t.0, ps[k - 1].name@)->0),
            src: rq(arg_reg(k - 1)),
        })
    }
}

/// The private table of a function: its parameters, then the locals its
/// body assigns.
pub open spec fn function_symbols(f: FunctionBlock) -> SymView {
    let t = decl_params(empty_table(), f.params@, f.params@.len() as int);
    decl_stmts(t, f.body@, f.body@.len() as int)
}

/// The message for a function with more than four parameters.
pub open spec fn too_many_params_message(name: Seq<char>) -> Seq<char> {
    "Function '"@ + name + "' has more than 4 parameters; not yet supported in Stage 0"@
}

/// Lowering of a function: label, prologue, parameter homes, body (where
/// `return` jumps to the epilogue label), epilogue.
pub open spec fn gen_function(module: Seq<char>, format: OutputFormat, st: GenState, f: FunctionBlock)
    -> Result<(Seq<InstrV>, GenState), Seq<char>>
{
    let t = function_symbols(f);
    let frame = frame_size(t) as i64;
    if f.params@.len() > 4 {
        Err(too_many_params_message(f.name@))
    } else {
        let ep = label_text(f.name@ + "_epilogue"@, st.counter);
        let st1 = with_counter(st, next_count(st.counter));
        let ctx = GenCtx { sy: t.0, module, format, epilogue: Some(ep) };
        match gen_stmts(ctx, st1, f.body@, f.body@.len() as int) {
            Err(msg) => Err(msg),
            Ok((cb, st2)) => Ok((
                seq![InstrV::Label(f.name@)] + prologue(frame) + home_moves(t, f.params@, f.params@.len() as int)
                    + cb + seq![InstrV::Label(ep)] + epilogue(frame),
                st2,
            )),
        }
    }
}

/// Declarations stay few enough for every offset and frame size to fit.
pub open spec fn decl_count_ok(n: int) -> bool {
    0 <= n <= 0x0800_0000_0000_0000
}

/// A function can be lowered without overflow.
pub open spec fn function_fits(f: FunctionBlock) -> bool {
    &&& stmts_fit(f.body@, 0)
    &&& decl_count_ok((f.params@.len() + assign_counts(f.body@, f.body@.len() as int)) as int)
}

proof fn lemma_decl_params(t: SymView, ps: Seq<Parameter>, k: int)
    requires
        sym_wf(t),
        0 <= k <= ps.len(),
        t.1 + 8 * k <= i64::MAX,
    ensures
        sym_wf(decl_params(t, ps, k)),
        decl_params(t, ps, k).1 == t.1 + 8 * k,
        sym_extends(t, decl_params(t, ps, k)),
        forall|i: int| 0 <= i < k ==> slot_lookup(decl_params(t, ps, k).0, #[trigger] ps[i].name@) is Some,
    decreases k,
{
    if k > 0 {
        lemma_decl_params(t, ps, k - 1);
        let t1 = decl_params(t, ps, k - 1);
        let t2 = decl_params(t, ps, k);
        assert(t2.0.subrange(0, t1.0.len() as int) =~= t1.0);
        lemma_extends_trans(t, t1, t2);
        assert forall|i: int| 0 <= i < k implies slot_lookup(t2.0, #[trigger] ps[i].name@) is Some by {
            if t2.0.last().0 != ps[i].name@ {
                assert(t2.0.drop_last() =~= t1.0);
            }
        }
    } else {
        assert(t.0.subrange(0, t.0.len() as int) =~= t.0);
    }
}

/// The parameters of a function all have slots in its table, which is
/// well formed and small enough for the frame size to fit.
pub proof fn lemma_function_symbols(f: FunctionBlock)
    requires
        function_fits(f),
    ensures
        sym_wf(function_symbols(f)),
        function_symbols(f).1 <= 8 * (f.params@.len() + assign_counts(f.body@, f.body@.len() as int)),
        forall|i: int| 0 <= i < f.params@.len() ==> slot_lookup(function_symbols(f).0, #[trigger] f.params@[i].name@) is Some,
{
    let n = f.params@.len() as int;
    lemma_decl_params(empty_table(), f.params@, n);
    let t = decl_params(empty_table(), f.params@, n);
    lemma_decl_stmts(t, f.body@, f.body@.len() as int);
    assert forall|i: int| 0 <= i < n implies slot_lookup(function_symbols(f).0, #[trigger] f.params@[i].name@) is Some by {
        lemma_lookup_extends(t, function_symbols(f), f.params@[i].name@);
    }
}


/// `decl_stmts` over the bodies of the first `k` functions.
pub open spec fn decl_fn_bodies(t: SymView, fs: Seq<FunctionBlock>, k: int) -> SymView
    decreases k,
{
    if k <= 0 || k > fs.len() {
        t
    } else {
        let f = fs[k - 1];
        decl_stmts(decl_fn_bodies(t, fs, k - 1), f.body@, f.body@.len() as int)
    }
}

/// The number of assignments in the bodies of the first `k` functions.
pub open spec fn fn_assign_counts(fs: Seq<FunctionBlock>, k: int) -> nat
    decreases k,
{
    if k <= 0 || k > fs.len() {
        0
    } else {
        fn_assign_counts(fs, k - 1) + assign_counts(fs[k - 1].body@, fs[k - 1].body@.len() as int)
    }
}

/// The table of a module's entry block: its inputs, the locals its
/// statements assign, and also the locals assigned in its functions' bodies.
pub open spec fn module_symbols(m: ModuleBlock, inputs: Seq<Parameter>) -> SymView {
    let t0 = decl_params(empty_table(), inputs, inputs.len() as int);
    let t1 = decl_stmts(t0, m.statements@, m.statements@.len() as int);
    decl_fn_bodies(t1, m.functions@, m.functions@.len() as int)
}

/// Lowering of the first `k` functions of a module, in order.
pub open spec fn gen_functions(module: Seq<char>, format: OutputFormat, st: GenState, fs: Seq<FunctionBlock>, k: int)
    -> Result<(Seq<InstrV>, GenState), Seq<char>>
    decreases k,
{
    if k <= 0 || k > fs.len() {
        Ok((Seq::empty(), st))
    } else {
        match gen_functions(module, format, st, fs, k - 1) {
            Err(msg) => Err(msg),
            Ok((c1, st1)) => match gen_function(module, format, st1, fs[k - 1]) {
                Err(msg) => Err(msg),
                Ok((c2, st2)) => Ok((c1 + c2, st2)),
            },
        }
    }
}

/// The program exit: RAX, as the last statement left it, becomes the exit
/// code of `ExitProcess`; nothing is popped.
pub open spec fn exit_code() -> Seq<InstrV> {
    seq![
        InstrV::Mov { dest: rq(Register::RCX), src: rq(Register::RAX) },
        reserve_shadow(),
    ] + call_cleanup("ExitProcess"@, 1)
}

/// The state of a fresh module.
pub open spec fn fresh_state() -> GenState {
    GenState { counter: 0, data: Seq::empty(), externs: Seq::empty() }
}

/// Lowering of a module, named `module`, from state `st`, with the global
/// inputs `globals` and `epi` the generator's epilogue label on entry:
/// `ExitProcess` is declared, the functions come first, then the entry
/// block (label, prologue, input homes, statements, exit, epilogue).
/// Yields the instructions, the state and the epilogue label afterwards.
pub open spec fn gen_module(format: OutputFormat, epi: Option<Seq<char>>, st: GenState, m: ModuleBlock,
    globals: Seq<Parameter>) -> Result<(Seq<InstrV>, GenState, Option<Seq<char>>), Seq<char>>
{
    let mt = m.name@;
    let st0 = with_extern(st, "ExitProcess"@);
    match gen_functions(mt, format, st0, m.functions@, m.functions@.len() as int) {
        Err(msg) => Err(msg),
        Ok((cf, st1)) => {
            let entry = label_text("entry"@, st1.counter);
            let st2 = with_counter(st1, next_count(st1.counter));
            let inputs = globals + m.inputs@;
            let t = module_symbols(m, inputs);
            let frame = frame_size(t) as i64;
            let epi1 = if m.functions@.len() > 0 { None } else { epi };
            let ctx = GenCtx { sy: t.0, module: mt, format, epilogue: epi1 };
            match gen_stmts(ctx, st2, m.statements@, m.statements@.len() as int) {
                Err(msg) => Err(msg),
                Ok((cs, st3)) => Ok((
                    cf + seq![InstrV::Label(entry)] + prologue(frame) + home_moves(t, inputs, inputs.len() as int)
                        + cs + exit_code() + epilogue(frame),
                    with_extern(st3, "ExitProcess"@),
                    epi1,
                )),
            }
        },
    }
}

/// Every function of the first `k` fits.
pub open spec fn functions_fit(fs: Seq<FunctionBlock>, k: int) -> bool
    decreases k,
{
    if k <= 0 || k > fs.len() { true } else { functions_fit(fs, k - 1) && function_fits(fs[k - 1]) }
}

/// A module can be lowered (with `n_globals` global inputs) without overflow.
pub open spec fn module_fits(m: ModuleBlock, n_globals: int) -> bool {
    &&& functions_fit(m.functions@, m.functions@.len() as int)
    &&& stmts_fit(m.statements@, 0)
    &&& decl_count_ok(n_globals + m.inputs@.len() + assign_counts(m.statements@, m.statements@.len() as int)
        + fn_assign_counts(m.functions@, m.functions@.len() as int))
}

proof fn lemma_functions_fit_at(fs: Seq<FunctionBlock>, k: int, i: int)
    requires
        0 <= i < k <= fs.len(),
        functions_fit(fs, k),
    ensures
        function_fits(fs[i]),
    decreases k,
{
    if i < k - 1 {
        lemma_functions_fit_at(fs, k - 1, i);
    }
}

proof fn lemma_decl_fn_bodies(t: SymView, fs: Seq<FunctionBlock>, k: int)
    requires
        sym_wf(t),
        t.1 + 8 * fn_assign_counts(fs, k) <= i64::MAX,
    ensures
        sym_wf(decl_fn_bodies(t, fs, k)),
        decl_fn_bodies(t, fs, k).1 <= t.1 + 8 * fn_assign_counts(fs, k),
        sym_extends(t, decl_fn_bodies(t, fs, k)),
    decreases k,
{
    if k <= 0 || k > fs.len() {
        assert(t.0.subrange(0, t.0.len() as int) =~= t.0);
    } else {
        lemma_decl_fn_bodies(t, fs, k - 1);
        let t1 = decl_fn_bodies(t, fs, k - 1);
        lemma_decl_stmts(t1, fs[k - 1].body@, fs[k - 1].body@.len() as int);
        lemma_extends_trans(t, t1, decl_fn_bodies(t, fs, k));
    }
}

/// The inputs of a module all have slots in its table, which is well formed
/// and small enough for the frame size to fit.
pub proof fn lemma_module_symbols(m: ModuleBlock, globals: Seq<Parameter>)
    requires
        module_fits(m, globals.len() as int),
    ensures
        sym_wf(module_symbols(m, globals + m.inputs@)),
        module_symbols(m, globals + m.inputs@).1 <= 8 * 0x0800_0000_0000_0000,
        forall|i: int| 0 <= i < (globals + m.inputs@).len() ==>
            slot_lookup(module_symbols(m, globals + m.inputs@).0, #[trigger] (globals + m.inputs@)[i].name@) is Some,
{
    let inputs = globals + m.inputs@;
    let n = inputs.len() as int;
    lemma_decl_params(empty_table(), inputs, n);
    let t0 = decl_params(empty_table(), inputs, n);
    lemma_decl_stmts(t0, m.statements@, m.statements@.len() as int);
    let t1 = decl_stmts(t0, m.statements@, m.statements@.len() as int);
    lemma_decl_fn_bodies(t1, m.functions@, m.functions@.len() as int);
    let t2 = module_symbols(m, inputs);
    lemma_extends_trans(t0, t1, t2);
    assert forall|i: int| 0 <= i < n implies slot_lookup(t2.0, #[trigger] inputs[i].name@) is Some by {
        lemma_lookup_extends(t0, t2, inputs[i].name@);
    }
}

// ============================================================================
// Code generator
// ============================================================================

/// Lowers a program, one module at a time.
pub struct CodeGenerator {
    current_module: Option<String>,
    current_function_epilogue: Option<String>,
    format: OutputFormat,
}

/// A 64-bit register operand.
fn reg(r: Register) -> (o: Operand)
    ensures
        o@ == rq(r),
{
    Operand::Register(r, OperandSize::Qword)
}

/// The register for argument `i`.
fn arg_register(i: usize) -> (r: Register)
    requires
        i < 4,
    ensures
        r == arg_reg(i as int),
{
    if i == 0 { Register::RCX } else if i == 1 { Register::RDX } else if i == 2 { Register::R8 } else { Register::R9 }
}

/// `[rbp - off]`.
fn rbp_slot(off: i64) -> (o: Operand)
    requires
        off > i64::MIN,
    ensures
        o@ == slot(off),
{
    Operand::Memory { base: Some(Register::RBP), index: None, displacement: -off, size: OperandSize::Qword }
}

/// Appends the instructions of a binary operator.
fn emit_binop(code: &mut ModuleCode, op: BinaryOp)
    ensures
        instrs_view(final(code).instructions@) == instrs_view(old(code).instructions@) + binop_code(op),
        gen_state(*final(code)) == gen_state(*old(code)),
        final(code).symbols == old(code).symbols,
{
    let ghost v0 = instrs_view(code.instructions@);
    match op {
        BinaryOp::Add => code.emit(Instruction::Add { dest: reg(Register::RAX), src: reg(Register::RCX) }),
        BinaryOp::Sub => code.emit(Instruction::Sub { dest: reg(Register::RAX), src: reg(Register::RCX) }),
        BinaryOp::Mul => code.emit(Instruction::Imul { dest: reg(Register::RAX), src: reg(Register::RCX) }),
        BinaryOp::Div => {
            code.emit(Instruction::Cqo);
            code.emit(Instruction::Idiv { src: reg(Register::RCX) });
        },
        BinaryOp::Mod => {
            code.emit(Instruction::Cqo);
            code.emit(Instruction::Idiv { src: reg(Register::RCX) });
            code.emit(Instruction::Mov { dest: reg(Register::RAX), src: reg(Register::RDX) });
        },
        BinaryOp::BitAnd => code.emit(Instruction::And { dest: reg(Register::RAX), src: reg(Register::RCX) }),
        BinaryOp::BitOr => code.emit(Instruction::Or { dest: reg(Register::RAX), src: reg(Register::RCX) }),
        BinaryOp::BitXor => code.emit(Instruction::Xor { dest: reg(Register::RAX), src: reg(Register::RCX) }),
        BinaryOp::Shl => code.emit(Instruction::Shl {
            dest: reg(Register::RAX),
            count: Operand::Register(Register::RCX, OperandSize::Byte),
        }),
        BinaryOp::Shr => code.emit(Instruction::Shr {
            dest: reg(Register::RAX),
            count: Operand::Register(Register::RCX, OperandSize::Byte),
        }),
        BinaryOp::Eq => emit_compare(code, Conditional::E),
        BinaryOp::Ne => emit_compare(code, Conditional::NE),
        BinaryOp::Lt => emit_compare(code, Conditional::L),
        BinaryOp::Le => emit_compare(code, Conditional::LE),
        BinaryOp::Gt => emit_compare(code, Conditional::G),
        BinaryOp::Ge => emit_compare(code, Conditional::GE),
    }
    assert(instrs_view(code.instructions@) =~= v0 + binop_code(op));
}

/// `cmp rax, rcx` then the 0/1 result of `cond` in RAX.
fn emit_compare(code: &mut ModuleCode, cond: Conditional)
    ensures
        instrs_view(final(code).instructions@) == instrs_view(old(code).instructions@) + compare_code(cond),
        gen_state(*final(code)) == gen_state(*old(code)),
        final(code).symbols == old(code).symbols,
{
    code.emit(Instruction::Cmp { left: reg(Register::RAX), right: reg(Register::RCX) });
    emit_setcc(code, cond);
    assert(instrs_view(code.instructions@) =~= instrs_view(old(code).instructions@) + compare_code(cond));
}

/// `set<cond> al; movzx rax, al`.
fn emit_setcc(code: &mut ModuleCode, cond: Conditional)
    ensures
        instrs_view(final(code).instructions@) == instrs_view(old(code).instructions@)
            + compare_code(cond).subrange(1, 3),
        gen_state(*final(code)) == gen_state(*old(code)),
        final(code).symbols == old(code).symbols,
{
    code.emit(Instruction::Setcc { cond, dest: Operand::Register(Register::RAX, OperandSize::Byte) });
    code.emit(Instruction::Movzx {
        dest: reg(Register::RAX),
        src: Operand::Register(Register::RAX, OperandSize::Byte),
    });
    assert(instrs_view(code.instructions@) =~= instrs_view(old(code).instructions@)
        + compare_code(cond).subrange(1, 3));
}

impl CodeGenerator {
    /// The module name used in error messages.
    pub closed spec fn module_text(&self) -> Seq<char> {
        match self.current_module {
            Some(n) => n@,
            None => "<module>"@,
        }
    }

    /// A generator for NASM output with no module in progress.
    pub fn new() -> (r: Self)
        ensures
            r.module_text() == "<module>"@,
            r.pending_epilogue() == None::<Seq<char>>,
            r.format_view() == OutputFormat::Asm,
    {
        CodeGenerator { current_module: None, current_function_epilogue: None, format: OutputFormat::Asm }
    }

    /// Emits `set<cond> al` then `movzx rax, al`, turning the flags of the
    /// preceding `cmp` into a clean 0/1 in RAX.
    fn setcc(&mut self, code: &mut ModuleCode, cond: Conditional)
        ensures
            instrs_view(final(code).instructions@) == instrs_view(old(code).instructions@)
                + compare_code(cond).subrange(1, 3),
            gen_state(*final(code)) == gen_state(*old(code)),
            final(code).symbols == old(code).symbols,
            *final(self) == *old(self),
    {
        emit_setcc(code, cond);
    }

    /// Emits a call of `target` followed by `add rsp, 32`, which releases the
    /// shadow space the caller reserved before evaluating the arguments.
    fn emit_call_and_cleanup(&mut self, code: &mut ModuleCode, target: &str, arg_count: usize)
        ensures
            instrs_view(final(code).instructions@) == instrs_view(old(code).instructions@)
                + call_cleanup(target@, arg_count),
            gen_state(*final(code)) == gen_state(*old(code)),
            final(code).symbols == old(code).symbols,
            *final(self) == *old(self),
    {
        code.emit(Instruction::Call { target: string_of(target), arg_count });
        code.emit(Instruction::Add { dest: reg(Register::RSP), src: Operand::Immediate(SHADOW_SPACE) });
        assert(instrs_view(code.instructions@) =~= instrs_view(old(code).instructions@)
            + call_cleanup(target@, arg_count));
    }

    /// The message for an undeclared variable.
    fn undeclared(&self, name: &String) -> (r: String)
        ensures
            r@ == undeclared_message(name@, self.module_text()),
    {
        let mut msg = string_of("use of undeclared variable '");
        push_string(&mut msg, name);
        push_str(&mut msg, "' in module '");
        match &self.current_module {
            Some(n) => push_string(&mut msg, n),
            None => push_str(&mut msg, "<module>"),
        }
        push_str(&mut msg, "'");
        assert(msg@ =~= undeclared_message(name@, self.module_text()));
        msg
    }

    /// Lowers an expression: its value ends up pushed on the stack.
    fn generate_expression(&mut self, code: &mut ModuleCode, expr: &Expression) -> (r: Result<(), String>)
        requires
            sym_wf(old(code).symbols@),
            expr_fits(*expr),
        ensures
            final(code).symbols == old(code).symbols,
            *final(self) == *old(self),
            match gen_expr(old(code).symbols@.0, old(self).module_text(), gen_state(*old(code)), *expr) {
                Ok((is, st)) => r is Ok
                    && instrs_view(final(code).instructions@) == instrs_view(old(code).instructions@) + is
                    && gen_state(*final(code)) == st,
                Err(msg) => {
                    let (p, pst) = expr_partial(old(code).symbols@.0, old(self).module_text(), gen_state(*old(code)), *expr);
                    &&& r matches Err(m) && m@ == msg
                    &&& instrs_view(old(code).instructions@).is_prefix_of(instrs_view(final(code).instructions@))
                    &&& instrs_view(final(code).instructions@) == instrs_view(old(code).instructions@) + p
                    &&& gen_state(*final(code)) == pst
                },
            },
            expr is Variable && r is Err ==> *final(code) == *old(code),
        decreases expr, 2int,
    {
        match expr {
            Expression::Literal(lit) => {
                self.generate_literal(code, lit);
                Ok(())
            },
            Expression::Variable(var) => self.generate_variable(code, &var.name),
            Expression::Binary { .. } => self.generate_binary(code, expr),
            Expression::Unary { .. } => self.generate_unary(code, expr),
            Expression::Call { name, args } => self.generate_call(code, name.as_str(), args),
        }
    }

    /// Pushes the value of a literal (the address of its interned bytes for
    /// a string).
    fn generate_literal(&mut self, code: &mut ModuleCode, lit: &Literal)
        ensures
            final(code).symbols == old(code).symbols,
            *final(self) == *old(self),
            ({
                let (is, st) = gen_expr(old(code).symbols@.0, old(self).module_text(), gen_state(*old(code)),
                    Expression::Literal(*lit))->Ok_0;
                &&& instrs_view(final(code).instructions@) == instrs_view(old(code).instructions@) + is
                &&& gen_state(*final(code)) == st
            }),
    {
        let ghost v0 = instrs_view(code.instructions@);
        match &lit.value {
            LiteralValue::String(s) => {
                let mut bytes = bytes_to_vec(s.as_str().as_bytes());
                bytes.push(0);
                let label = code.intern_data("str", bytes.as_slice());
                code.emit(Instruction::Lea { dest: reg(Register::RAX), src: Operand::Label(label) });
                code.emit(Instruction::Push(reg(Register::RAX)));
            },
            LiteralValue::Int(v) => {
                code.emit(Instruction::Mov { dest: reg(Register::RAX), src: Operand::Immediate(*v) });
                code.emit(Instruction::Push(reg(Register::RAX)));
            },
            LiteralValue::Float(f) => {
                code.emit(Instruction::Mov {
                    dest: reg(Register::RAX),
                    src: Operand::Immediate(f.bits as i64),
                });
                code.emit(Instruction::Push(reg(Register::RAX)));
            },
        }
        assert(instrs_view(code.instructions@) =~= v0
            + gen_expr(old(code).symbols@.0, old(self).module_text(), gen_state(*old(code)),
                Expression::Literal(*lit))->Ok_0.0);
    }

    /// Pushes the value of a declared variable.
    fn generate_variable(&mut self, code: &mut ModuleCode, name: &String) -> (r: Result<(), String>)
        requires
            sym_wf(old(code).symbols@),
        ensures
            final(code).symbols == old(code).symbols,
            *final(self) == *old(self),
            match gen_expr(old(code).symbols@.0, old(self).module_text(), gen_state(*old(code)),
                Expression::Variable(Variable { name: *name })) {
                Ok((is, st)) => r is Ok
                    && instrs_view(final(code).instructions@) == instrs_view(old(code).instructions@) + is
                    && gen_state(*final(code)) == st,
                Err(msg) => {
                    let (p, pst) = expr_partial(old(code).symbols@.0, old(self).module_text(), gen_state(*old(code)),
                        Expression::Variable(Variable { name: *name }));
                    &&& r matches Err(m) && m@ == msg
                    &&& instrs_view(old(code).instructions@).is_prefix_of(instrs_view(final(code).instructions@))
                    &&& instrs_view(final(code).instructions@) == instrs_view(old(code).instructions@) + p
                    &&& gen_state(*final(code)) == pst
                },
            },
            r is Err ==> *final(code) == *old(code),
    {
        let ghost v0 = instrs_view(code.instructions@);
        match code.symbols.get(name.as_str()) {
            None => {
                assert(v0 =~= v0 + Seq::<InstrV>::empty());
                Err(self.undeclared(name))
            },
            Some(offset) => {
                proof {
                    lemma_sym_lookup_bounds(code.symbols@, name@);
                }
                code.emit(Instruction::Mov { dest: reg(Register::RAX), src: rbp_slot(offset) });
                code.emit(Instruction::Push(reg(Register::RAX)));
                assert(instrs_view(code.instructions@) =~= v0
                    + seq![InstrV::Mov { dest: rq(Register::RAX), src: slot(offset) }, push_rax()]);
                Ok(())
            },
        }
    }

    /// Lowers `left op right`: both operands are pushed, popped into RAX and
    /// RCX, combined, and the result pushed.
    fn generate_binary(&mut self, code: &mut ModuleCode, expr: &Expression) -> (r: Result<(), String>)
        requires
            sym_wf(old(code).symbols@),
            expr_fits(*expr),
            expr is Binary,
        ensures
            final(code).symbols == old(code).symbols,
            *final(self) == *old(self),
            match gen_expr(old(code).symbols@.0, old(self).module_text(), gen_state(*old(code)), *expr) {
                Ok((is, st)) => r is Ok
                    && instrs_view(final(code).instructions@) == instrs_view(old(code).instructions@) + is
                    && gen_state(*final(code)) == st,
                Err(msg) => {
                    let (p, pst) = expr_partial(old(code).symbols@.0, old(self).module_text(), gen_state(*old(code)), *expr);
                    &&& r matches Err(m) && m@ == msg
                    &&& instrs_view(old(code).instructions@).is_prefix_of(instrs_view(final(code).instructions@))
                    &&& instrs_view(final(code).instructions@) == instrs_view(old(code).instructions@) + p
                    &&& gen_state(*final(code)) == pst
                },
            },
        decreases expr, 1int,
    {
        let ghost v0 = instrs_view(code.instructions@);
        if let Expression::Binary { op, left, right } = expr {
            let r1 = self.generate_expression(code, left);
            if let Err(e) = r1 {
                return Err(e);
            }
            let r2 = self.generate_expression(code, right);
            if let Err(e) = r2 {
                proof {
                    let st1 = gen_expr(old(code).symbols@.0, old(self).module_text(), gen_state(*old(code)), **left)->Ok_0.1;
                    let c1 = gen_expr(old(code).symbols@.0, old(self).module_text(), gen_state(*old(code)), **left)->Ok_0.0;
                    let p2 = expr_partial(old(code).symbols@.0, old(self).module_text(), st1, **right).0;
                    assert(instrs_view(code.instructions@) =~= v0 + (c1 + p2));
                }
                return Err(e);
            }
            code.emit(Instruction::Pop(reg(Register::RCX)));
            code.emit(Instruction::Pop(reg(Register::RAX)));
            emit_binop(code, *op);
            code.emit(Instruction::Push(reg(Register::RAX)));
            proof {
                let (c1, st1) = gen_expr(old(code).symbols@.0, old(self).module_text(), gen_state(*old(code)), **left)->Ok_0;
                let (c2, st2) = gen_expr(old(code).symbols@.0, old(self).module_text(), st1, **right)->Ok_0;
                assert(instrs_view(code.instructions@) =~= v0 + (c1 + c2
                    + seq![pop_q(Register::RCX), pop_q(Register::RAX)] + binop_code(*op) + seq![push_rax()]));
            }
            Ok(())
        } else {
            Ok(())
        }
    }

    /// Lowers `op operand`: the operand is pushed, popped into RAX,
    /// transformed, and pushed back.
    fn generate_unary(&mut self, code: &mut ModuleCode, expr: &Expression) -> (r: Result<(), String>)
        requires
            sym_wf(old(code).symbols@),
            expr_fits(*expr),
            expr is Unary,
        ensures
            final(code).symbols == old(code).symbols,
            *final(self) == *old(self),
            match gen_expr(old(code).symbols@.0, old(self).module_text(), gen_state(*old(code)), *expr) {
                Ok((is, st)) => r is Ok
                    && instrs_view(final(code).instructions@) == instrs_view(old(code).instructions@) + is
                    && gen_state(*final(code)) == st,
                Err(msg) => {
                    let (p, pst) = expr_partial(old(code).symbols@.0, old(self).module_text(), gen_state(*old(code)), *expr);
                    &&& r matches Err(m) && m@ == msg
                    &&& instrs_view(old(code).instructions@).is_prefix_of(instrs_view(final(code).instructions@))
                    &&& instrs_view(final(code).instructions@) == instrs_view(old(code).instructions@) + p
                    &&& gen_state(*final(code)) == pst
                },
            },
        decreases expr, 1int,
    {
        let ghost v0 = instrs_view(code.instructions@);
        if let Expression::Unary { op, operand } = expr {
            let r1 = self.generate_expression(code, operand);
            if let Err(e) = r1 {
                return Err(e);
            }
            let ghost v1 = instrs_view(code.instructions@);
            let ghost c1 = code.label_counter;
            code.emit(Instruction::Pop(reg(Register::RAX)));
            match op {
                UnaryOp::Pos => {},
                UnaryOp::Negate => code.emit(Instruction::Neg { dest: reg(Register::RAX) }),
                UnaryOp::Not => {
                    code.emit(Instruction::Test { left: reg(Register::RAX), right: reg(Register::RAX) });
                    code.emit(Instruction::Mov { dest: reg(Register::RAX), src: Operand::Immediate(1) });
                    let lz = code.new_label("zero");
                    code.emit(Instruction::Je(lz.clone()));
                    code.emit(Instruction::Mov { dest: reg(Register::RAX), src: Operand::Immediate(0) });
                    code.emit(Instruction::Label(lz));
                },
                UnaryOp::BitNot => {
                    code.emit(Instruction::Xor { dest: reg(Register::RAX), src: Operand::Immediate(-1) });
                },
            }
            code.emit(Instruction::Push(reg(Register::RAX)));
            assert(instrs_view(code.instructions@) =~= v1 + seq![pop_q(Register::RAX)]
                + unop_code(*op, c1) + seq![push_rax()]);
            Ok(())
        } else {
            Ok(())
        }
    }

    /// Lowers a call: reserve shadow space, evaluate the arguments last to
    /// first, pop the first four into RCX, RDX, R8, R9, drop the rest, call,
    /// release the shadow space and push RAX.
    fn generate_call(&mut self, code: &mut ModuleCode, name: &str, args: &Vec<Expression>) -> (r: Result<(), String>)
        requires
            sym_wf(old(code).symbols@),
            args@.len() <= i64::MAX / 8,
            args_fit(args@, 0),
        ensures
            final(code).symbols == old(code).symbols,
            *final(self) == *old(self),
            match gen_args_rev(old(code).symbols@.0, old(self).module_text(), gen_state(*old(code)), args@, 0) {
                Ok((c1, st)) => {
                    let n = args@.len();
                    r is Ok
                    && gen_state(*final(code)) == st
                    && instrs_view(final(code).instructions@) == instrs_view(old(code).instructions@)
                        + seq![InstrV::Sub { dest: rq(Register::RSP), src: OperandV::Immediate(SHADOW_SPACE) }]
                        + c1
                        + pop_args(if n < 4 { n as int } else { 4 })
                        + (if n > 4 {
                            seq![InstrV::Add { dest: rq(Register::RSP), src: OperandV::Immediate(((n - 4) * 8) as i64) }]
                        } else {
                            Seq::empty()
                        })
                        + call_cleanup(name@, n as usize)
                        + seq![push_rax()]
                },
                Err(msg) => {
                    let (p, pst) = args_partial(old(code).symbols@.0, old(self).module_text(), gen_state(*old(code)), args@, 0);
                    &&& r matches Err(m) && m@ == msg
                    &&& instrs_view(old(code).instructions@).is_prefix_of(instrs_view(final(code).instructions@))
                    &&& instrs_view(final(code).instructions@) == instrs_view(old(code).instructions@)
                        + seq![InstrV::Sub { dest: rq(Register::RSP), src: OperandV::Immediate(SHADOW_SPACE) }] + p
                    &&& gen_state(*final(code)) == pst
                },
            },
        decreases args, 0int,
    {
        let ghost sy = old(code).symbols@.0;
        let ghost mt = old(self).module_text();
        let ghost st0 = gen_state(*old(code));
        code.emit(Instruction::Sub { dest: reg(Register::RSP), src: Operand::Immediate(SHADOW_SPACE) });
        let ghost v1 = instrs_view(code.instructions@);
        assert(v1 =~= instrs_view(old(code).instructions@)
            + seq![InstrV::Sub { dest: rq(Register::RSP), src: OperandV::Immediate(SHADOW_SPACE) }]);
        assert(v1.subrange(0, instrs_view(old(code).instructions@).len() as int) =~= instrs_view(old(code).instructions@));
        let mut i = args.len();
        assert(gen_args_rev(sy, mt, st0, args@, i as int) == Ok::<(Seq<InstrV>, GenState), Seq<char>>((Seq::empty(), st0)));
        assert(v1 =~= v1 + Seq::<InstrV>::empty());
        while i > 0
            invariant
                i <= args@.len(),
                sy == old(code).symbols@.0,
                mt == old(self).module_text(),
                st0 == gen_state(*old(code)),
                sym_wf(code.symbols@),
                code.symbols@.0 == sy,
                self.module_text() == mt,
                *self == *old(self),
                code.symbols == old(code).symbols,
                args_fit(args@, 0),
                gen_args_rev(sy, mt, st0, args@, i as int) is Ok,
                ({
                    let (c, st) = gen_args_rev(sy, mt, st0, args@, i as int)->Ok_0;
                    instrs_view(code.instructions@) == v1 + c && gen_state(*code) == st
                }),
                instrs_view(old(code).instructions@).is_prefix_of(v1),
                v1 == instrs_view(old(code).instructions@)
                    + seq![InstrV::Sub { dest: rq(Register::RSP), src: OperandV::Immediate(SHADOW_SPACE) }],
            decreases i,
        {
            i = i - 1;
            proof {
                lemma_args_fit_at(args@, 0, i as int);
            }
            let ghost before = instrs_view(code.instructions@);
            let ghost st_i = gen_args_rev(sy, mt, st0, args@, i + 1)->Ok_0.1;
            let r1 = self.generate_expression(code, &args[i]);
            if let Err(e) = r1 {
                proof {
                    let c = gen_args_rev(sy, mt, st0, args@, i + 1)->Ok_0.0;
                    assert(v1.is_prefix_of(before)) by {
                        assert(before.subrange(0, v1.len() as int) =~= v1);
                    }
                    lemma_prefix_trans(instrs_view(old(code).instructions@), v1, before);
                    lemma_prefix_trans(instrs_view(old(code).instructions@), before, instrs_view(code.instructions@));
                    assert(gen_expr(sy, mt, st_i, args@[i as int]) is Err);
                    assert(gen_args_rev(sy, mt, st0, args@, i as int) == gen_expr(sy, mt, st_i, args@[i as int]));
                    lemma_args_rev_err(sy, mt, st0, args@, 0, i as int);
                    assert(gen_args_rev(sy, mt, st0, args@, 0) is Err);
                    assert(e@ == gen_args_rev(sy, mt, st0, args@, 0)->Err_0);
                    lemma_args_partial_err(sy, mt, st0, args@, 0, i as int);
                    let pi = expr_partial(sy, mt, st_i, args@[i as int]).0;
                    assert(args_partial(sy, mt, st0, args@, i as int).0 == c + pi);
                    assert(before == v1 + c);
                    assert(instrs_view(code.instructions@) == before + pi);
                    assert(instrs_view(code.instructions@) =~= instrs_view(old(code).instructions@)
                        + seq![InstrV::Sub { dest: rq(Register::RSP), src: OperandV::Immediate(SHADOW_SPACE) }]
                        + (c + pi));
                }
                return Err(e);
            }
            proof {
                let (c, st) = gen_args_rev(sy, mt, st0, args@, i + 1)->Ok_0;
                let (c2, st2) = gen_expr(sy, mt, st, args@[i as int])->Ok_0;
                assert(instrs_view(code.instructions@) =~= v1 + (c + c2));
            }
        }
        assert(i == 0);
        assert(gen_args_rev(sy, mt, st0, args@, 0) is Ok);
        let ghost v2 = instrs_view(code.instructions@);
        let n = args.len();
        let mut k: usize = 0;
        while k < n && k < 4
            invariant
                k <= n,
                k <= 4,
                n == args@.len(),
                instrs_view(code.instructions@) == v2 + pop_args(k as int),
                code.symbols == old(code).symbols,
                *self == *old(self),
                gen_args_rev(sy, mt, st0, args@, 0) is Ok,
                v2 == v1 + gen_args_rev(sy, mt, st0, args@, 0)->Ok_0.0,
                gen_state(*code) == gen_args_rev(sy, mt, st0, args@, 0)->Ok_0.1,
            decreases 4 - k,
        {
            code.emit(Instruction::Pop(reg(arg_register(k))));
            k = k + 1;
            assert(instrs_view(code.instructions@) =~= v2 + pop_args(k as int));
        }
        assert(k == if n < 4 { n } else { 4 });
        let ghost v3 = instrs_view(code.instructions@);
        if n > 4 {
            assert((n - 4) * 8 <= i64::MAX) by (nonlinear_arith)
                requires n <= i64::MAX / 8, n > 4;
            let extra = ((n - 4) as u64 * 8) as i64;
            code.emit(Instruction::Add { dest: reg(Register::RSP), src: Operand::Immediate(extra) });
        }
        let ghost v4 = instrs_view(code.instructions@);
        assert(v4 =~= v3 + (if n > 4 {
            seq![InstrV::Add { dest: rq(Register::RSP), src: OperandV::Immediate(((n - 4) * 8) as i64) }]
        } else {
            Seq::empty()
        }));
        self.emit_call_and_cleanup(code, name, n);
        code.emit(Instruction::Push(reg(Register::RAX)));
        proof {
            let (c1, st) = gen_args_rev(sy, mt, st0, args@, 0)->Ok_0;
            assert(instrs_view(code.instructions@) =~= instrs_view(old(code).instructions@)
                + seq![InstrV::Sub { dest: rq(Register::RSP), src: OperandV::Immediate(SHADOW_SPACE) }]
                + c1
                + pop_args(if n < 4 { n as int } else { 4 })
                + (if n > 4 {
                    seq![InstrV::Add { dest: rq(Register::RSP), src: OperandV::Immediate(((n - 4) * 8) as i64) }]
                } else {
                    Seq::empty()
                })
                + call_cleanup(name@, n as usize)
                + seq![push_rax()]);
            assert(gen_state(*code) == st);
        }
        assert(*self == *old(self));
        assert(code.symbols == old(code).symbols);
        Ok(())
    }
}

impl CodeGenerator {
    /// What statement lowering reads from the generator and the module.
    pub closed spec fn ctx(&self, code: ModuleCode) -> GenCtx {
        GenCtx {
            sy: code.symbols@.0,
            module: self.module_text(),
            format: self.format,
            epilogue: match self.current_function_epilogue {
                Some(e) => Some(e@),
                None => None,
            },
        }
    }

    /// Lowers `args` left to right (each value pushed).
    fn generate_args_in_order(&mut self, code: &mut ModuleCode, args: &Vec<Expression>) -> (r: Result<(), String>)
        requires
            sym_wf(old(code).symbols@),
            args_fit(args@, 0),
        ensures
            final(code).symbols == old(code).symbols,
            *final(self) == *old(self),
            lowered(gen_args_fwd(old(code).symbols@.0, old(self).module_text(), gen_state(*old(code)), args@, args@.len() as int),
                r, instrs_view(old(code).instructions@), instrs_view(final(code).instructions@), gen_state(*final(code))),
    {
        let ghost sy = old(code).symbols@.0;
        let ghost mt = old(self).module_text();
        let ghost st0 = gen_state(*old(code));
        let ghost v0 = instrs_view(code.instructions@);
        let mut i: usize = 0;
        assert(v0 =~= v0 + Seq::<InstrV>::empty());
        while i < args.len()
            invariant
                i <= args@.len(),
                sy == old(code).symbols@.0,
                mt == old(self).module_text(),
                st0 == gen_state(*old(code)),
                v0 == instrs_view(old(code).instructions@),
                sym_wf(code.symbols@),
                code.symbols == old(code).symbols,
                *self == *old(self),
                args_fit(args@, 0),
                gen_args_fwd(sy, mt, st0, args@, i as int) is Ok,
                ({
                    let (c, st) = gen_args_fwd(sy, mt, st0, args@, i as int)->Ok_0;
                    instrs_view(code.instructions@) == v0 + c && gen_state(*code) == st
                }),
            decreases args@.len() - i,
        {
            proof {
                lemma_args_fit_at(args@, 0, i as int);
            }
            let ghost st_i = gen_args_fwd(sy, mt, st0, args@, i as int)->Ok_0.1;
            let ghost c_i = gen_args_fwd(sy, mt, st0, args@, i as int)->Ok_0.0;
            let r1 = self.generate_expression(code, &args[i]);
            if let Err(e) = r1 {
                proof {
                    assert(gen_args_fwd(sy, mt, st0, args@, i + 1) == gen_expr(sy, mt, st_i, args@[i as int]));
                    lemma_args_fwd_err(sy, mt, st0, args@, i + 1, args@.len() as int);
                }
                return Err(e);
            }
            proof {
                let (c2, st2) = gen_expr(sy, mt, st_i, args@[i as int])->Ok_0;
                assert(instrs_view(code.instructions@) =~= v0 + (c_i + c2));
            }
            i = i + 1;
        }
        Ok(())
    }

    /// Pops `k` values into `r`.
    fn emit_pops(code: &mut ModuleCode, r: Register, k: usize)
        ensures
            instrs_view(final(code).instructions@) == instrs_view(old(code).instructions@) + pops(r, k as int),
            gen_state(*final(code)) == gen_state(*old(code)),
            final(code).symbols == old(code).symbols,
    {
        let mut i: usize = 0;
        let ghost v0 = instrs_view(code.instructions@);
        assert(v0 =~= v0 + pops(r, 0));
        while i < k
            invariant
                i <= k,
                v0 == instrs_view(old(code).instructions@),
                instrs_view(code.instructions@) == v0 + pops(r, i as int),
                gen_state(*code) == gen_state(*old(code)),
                code.symbols == old(code).symbols,
            decreases k - i,
        {
            code.emit(Instruction::Pop(reg(r)));
            i = i + 1;
            assert(instrs_view(code.instructions@) =~= v0 + pops(r, i as int));
        }
    }

    /// Pops the last of `k` pushed values into `keep` and throws the others
    /// away into `drop`.
    fn emit_pop_last(code: &mut ModuleCode, keep: Register, drop: Register, k: usize)
        requires
            k >= 1,
        ensures
            instrs_view(final(code).instructions@) == instrs_view(old(code).instructions@) + pop_last(keep, drop, k as int),
            gen_state(*final(code)) == gen_state(*old(code)),
            final(code).symbols == old(code).symbols,
    {
        code.emit(Instruction::Pop(reg(keep)));
        Self::emit_pops(code, drop, k - 1);
        assert(instrs_view(code.instructions@) =~= instrs_view(old(code).instructions@) + pop_last(keep, drop, k as int));
    }

    /// Lowers `print(args)`.
    fn lower_print(&mut self, code: &mut ModuleCode, sink: &SinkCall) -> (r: Result<(), String>)
        requires
            sym_wf(old(code).symbols@),
            args_fit(sink.args@, 0),
        ensures
            final(code).symbols == old(code).symbols,
            *final(self) == *old(self),
            lowered(print_code(old(self).ctx(*old(code)), gen_state(*old(code)), sink.args@),
                r, instrs_view(old(code).instructions@), instrs_view(final(code).instructions@), gen_state(*final(code))),
    {
        let ghost v0 = instrs_view(code.instructions@);
        if sink.args.len() == 0 {
            assert(v0 =~= v0 + Seq::<InstrV>::empty());
            return Ok(());
        }
        let is_string = match &sink.args[sink.args.len() - 1] {
            Expression::Literal(lit) => match &lit.value {
                LiteralValue::String(_) => true,
                _ => false,
            },
            _ => false,
        };
        let r1 = self.generate_args_in_order(code, &sink.args);
        if let Err(e) = r1 {
            return Err(e);
        }
        let ghost v1 = instrs_view(code.instructions@);
        let ghost st1 = gen_state(*code);
        Self::emit_pop_last(code, Register::RAX, Register::RCX, sink.args.len());
        code.emit(Instruction::Sub { dest: reg(Register::RSP), src: Operand::Immediate(SHADOW_SPACE) });
        let ghost v2 = instrs_view(code.instructions@);
        match self.format {
            OutputFormat::RustSource => {
                let target = if is_string { "bxen_print_str" } else { "bxen_print_int" };
                code.add_extern(target);
                code.emit(Instruction::Mov { dest: reg(Register::RCX), src: reg(Register::RAX) });
                self.emit_call_and_cleanup(code, target, 1);
                assert(instrs_view(code.instructions@) =~= v2
                    + seq![InstrV::Mov { dest: rq(Register::RCX), src: rq(Register::RAX) }] + call_cleanup(target@, 1));
            },
            _ => {
                code.add_extern("printf");
                let mut fmt: Vec<u8> = Vec::new();
                let label = if is_string {
                    fmt.push(37u8); fmt.push(115u8); fmt.push(10u8); fmt.push(0u8);
                    assert(fmt@ =~= fmt_str_bytes());
                    code.intern_data("fmt_str_newline", fmt.as_slice())
                } else {
                    fmt.push(37u8); fmt.push(108u8); fmt.push(108u8); fmt.push(100u8); fmt.push(10u8); fmt.push(0u8);
                    assert(fmt@ =~= fmt_i64_bytes());
                    code.intern_data("fmt_i64_newline", fmt.as_slice())
                };
                code.emit(Instruction::Lea { dest: reg(Register::RCX), src: Operand::Label(label) });
                code.emit(Instruction::Mov { dest: reg(Register::RDX), src: reg(Register::RAX) });
                self.emit_call_and_cleanup(code, "printf", 2);
                assert(instrs_view(code.instructions@) =~= v2 + seq![
                    InstrV::Lea { dest: rq(Register::RCX), src: OperandV::Label(label@) },
                    InstrV::Mov { dest: rq(Register::RDX), src: rq(Register::RAX) },
                ] + call_cleanup("printf"@, 2));
            },
        }
        proof {
            let c1 = gen_args_fwd(old(self).ctx(*old(code)).sy, old(self).ctx(*old(code)).module,
                gen_state(*old(code)), sink.args@, sink.args@.len() as int)->Ok_0.0;
            assert(v1 == v0 + c1);
            assert(v2 == v0 + (c1 + pop_last(Register::RAX, Register::RCX, sink.args@.len() as int) + seq![reserve_shadow()]));
        }
        assert(instrs_view(code.instructions@) =~= v0
            + print_code(old(self).ctx(*old(code)), gen_state(*old(code)), sink.args@)->Ok_0.0);
        Ok(())
    }

    /// Lowers a one-argument sink calling the extern `name`.
    fn lower_extern_sink(&mut self, code: &mut ModuleCode, sink: &SinkCall, name: &str) -> (r: Result<(), String>)
        requires
            sym_wf(old(code).symbols@),
            args_fit(sink.args@, 0),
        ensures
            final(code).symbols == old(code).symbols,
            *final(self) == *old(self),
            lowered(extern_sink_code(old(self).ctx(*old(code)), gen_state(*old(code)), sink.args@, name@),
                r, instrs_view(old(code).instructions@), instrs_view(final(code).instructions@), gen_state(*final(code))),
    {
        let ghost v0 = instrs_view(code.instructions@);
        code.add_extern(name);
        assert(gen_state(*code) == with_extern(gen_state(*old(code)), name@));
        if sink.args.len() == 0 {
            assert(v0 =~= v0 + Seq::<InstrV>::empty());
            assert(instrs_view(code.instructions@) == v0);
            return Ok(());
        }
        let ghost ctx0 = old(self).ctx(*old(code));
        let ghost st0 = with_extern(gen_state(*old(code)), name@);
        assert(ctx0.sy == code.symbols@.0 && ctx0.module == self.module_text());
        let r1 = self.generate_args_in_order(code, &sink.args);
        if let Err(e) = r1 {
            assert(extern_sink_code(ctx0, gen_state(*old(code)), sink.args@, name@)
                == gen_args_fwd(ctx0.sy, ctx0.module, st0, sink.args@, sink.args@.len() as int));
            return Err(e);
        }
        let ghost v1 = instrs_view(code.instructions@);
        Self::emit_pop_last(code, Register::RCX, Register::RAX, sink.args.len());
        code.emit(Instruction::Sub { dest: reg(Register::RSP), src: Operand::Immediate(SHADOW_SPACE) });
        self.emit_call_and_cleanup(code, name, 1);
        assert(instrs_view(code.instructions@) =~= v1 + pop_last(Register::RCX, Register::RAX, sink.args@.len() as int)
            + seq![reserve_shadow()] + call_cleanup(name@, 1));
        proof {
            let (c1, st1) = gen_args_fwd(ctx0.sy, ctx0.module, st0, sink.args@, sink.args@.len() as int)->Ok_0;
            assert(v1 == v0 + c1);
            assert(instrs_view(code.instructions@) =~= v0 + (c1 + pop_last(Register::RCX, Register::RAX, sink.args@.len() as int)
                + seq![reserve_shadow()] + call_cleanup(name@, 1)));
            assert(gen_state(*code) == st1);
        }
        Ok(())
    }

    /// Lowers `puts(str)`.
    fn lower_puts(&mut self, code: &mut ModuleCode, sink: &SinkCall) -> (r: Result<(), String>)
        requires
            sym_wf(old(code).symbols@),
            args_fit(sink.args@, 0),
        ensures
            final(code).symbols == old(code).symbols,
            *final(self) == *old(self),
            lowered(extern_sink_code(old(self).ctx(*old(code)), gen_state(*old(code)), sink.args@,
                if old(self).format == OutputFormat::RustSource { "bxen_print_str"@ } else { "puts"@ }),
                r, instrs_view(old(code).instructions@), instrs_view(final(code).instructions@), gen_state(*final(code))),
    {
        let target = match self.format {
            OutputFormat::RustSource => "bxen_print_str",
            _ => "puts",
        };
        self.lower_extern_sink(code, sink, target)
    }

    /// Lowers `putchar(ch)`.
    fn lower_putchar(&mut self, code: &mut ModuleCode, sink: &SinkCall) -> (r: Result<(), String>)
        requires
            sym_wf(old(code).symbols@),
            args_fit(sink.args@, 0),
        ensures
            final(code).symbols == old(code).symbols,
            *final(self) == *old(self),
            lowered(extern_sink_code(old(self).ctx(*old(code)), gen_state(*old(code)), sink.args@,
                if old(self).format == OutputFormat::RustSource { "bxen_putchar"@ } else { "putchar"@ }),
                r, instrs_view(old(code).instructions@), instrs_view(final(code).instructions@), gen_state(*final(code))),
    {
        let target = match self.format {
            OutputFormat::RustSource => "bxen_putchar",
            _ => "putchar",
        };
        self.lower_extern_sink(code, sink, target)
    }

    /// Lowers a sink statement.
    fn generate_sink(&mut self, code: &mut ModuleCode, sink: &SinkCall) -> (r: Result<(), String>)
        requires
            sym_wf(old(code).symbols@),
            args_fit(sink.args@, 0),
        ensures
            final(code).symbols == old(code).symbols,
            *final(self) == *old(self),
            lowered(sink_code(old(self).ctx(*old(code)), gen_state(*old(code)), *sink),
                r, instrs_view(old(code).instructions@), instrs_view(final(code).instructions@), gen_state(*final(code))),
    {
        let print = string_of("print");
        let puts = string_of("puts");
        let putchar = string_of("putchar");
        if sink.name == print {
            self.lower_print(code, sink)
        } else if sink.name == puts {
            self.lower_puts(code, sink)
        } else if sink.name == putchar {
            self.lower_putchar(code, sink)
        } else {
            let mut msg = string_of("unknown sink '");
            push_string(&mut msg, &sink.name);
            push_str(&mut msg, "'");
            assert(msg@ =~= unknown_sink_message(sink.name@));
            Err(msg)
        }
    }
}

impl CodeGenerator {
    /// Lowers one statement; the value stack is left balanced.
    fn generate_statement(&mut self, code: &mut ModuleCode, stmt: &Statement) -> (r: Result<(), String>)
        requires
            sym_wf(old(code).symbols@),
            stmt_fits(*stmt),
        ensures
            final(code).symbols == old(code).symbols,
            *final(self) == *old(self),
            lowered(gen_stmt(old(self).ctx(*old(code)), gen_state(*old(code)), *stmt),
                r, instrs_view(old(code).instructions@), instrs_view(final(code).instructions@), gen_state(*final(code))),
        decreases stmt, 2int,
    {
        match stmt {
            Statement::Expression(expr) => {
                let ghost v0 = instrs_view(code.instructions@);
                let r1 = self.generate_expression(code, expr);
                if let Err(e) = r1 {
                    return Err(e);
                }
                let ghost v1 = instrs_view(code.instructions@);
                code.emit(Instruction::Pop(reg(Register::RAX)));
                proof {
                    let c1 = gen_expr(old(self).ctx(*old(code)).sy, old(self).ctx(*old(code)).module,
                        gen_state(*old(code)), *expr)->Ok_0.0;
                    assert(instrs_view(code.instructions@) =~= v0 + (c1 + seq![pop_q(Register::RAX)]));
                }
                Ok(())
            },
            Statement::Assignment(assign) => self.generate_assignment(code, assign),
            Statement::Sink(sink) => self.generate_sink(code, sink),
            Statement::If { .. } => self.generate_if(code, stmt),
            Statement::While { .. } => self.generate_while(code, stmt),
            Statement::Return(ret) => self.generate_return(code, ret),
        }
    }

    /// Lowers `name: value`: the value is stored in the variable's slot.
    fn generate_assignment(&mut self, code: &mut ModuleCode, assign: &Assignment) -> (r: Result<(), String>)
        requires
            sym_wf(old(code).symbols@),
            expr_fits(assign.value),
        ensures
            final(code).symbols == old(code).symbols,
            *final(self) == *old(self),
            lowered(gen_stmt(old(self).ctx(*old(code)), gen_state(*old(code)), Statement::Assignment(*assign)),
                r, instrs_view(old(code).instructions@), instrs_view(final(code).instructions@), gen_state(*final(code))),
    {
        let ghost v0 = instrs_view(code.instructions@);
        let r1 = self.generate_expression(code, &assign.value);
        if let Err(e) = r1 {
            return Err(e);
        }
        let ghost v1 = instrs_view(code.instructions@);
        code.emit(Instruction::Pop(reg(Register::RAX)));
        let ghost v2 = instrs_view(code.instructions@);
        if let Some(offset) = code.symbols.get(assign.name.as_str()) {
            proof {
                lemma_sym_lookup_bounds(code.symbols@, assign.name@);
            }
            code.emit(Instruction::Mov { dest: rbp_slot(offset), src: reg(Register::RAX) });
        }
        proof {
            let c1 = gen_expr(old(self).ctx(*old(code)).sy, old(self).ctx(*old(code)).module,
                gen_state(*old(code)), assign.value)->Ok_0.0;
            assert(instrs_view(code.instructions@) =~= v0 + (c1 + seq![pop_q(Register::RAX)]
                + match slot_lookup(code.symbols@.0, assign.name@) {
                    Some(off) => seq![InstrV::Mov { dest: slot(off), src: rq(Register::RAX) }],
                    None => Seq::empty(),
                }));
        }
        Ok(())
    }

    /// Lowers `return [value]` as a jump to the current function's epilogue.
    fn generate_return(&mut self, code: &mut ModuleCode, ret: &Return) -> (r: Result<(), String>)
        requires
            sym_wf(old(code).symbols@),
            match ret.value { Some(v) => expr_fits(v), None => true },
        ensures
            final(code).symbols == old(code).symbols,
            *final(self) == *old(self),
            lowered(gen_stmt(old(self).ctx(*old(code)), gen_state(*old(code)), Statement::Return(*ret)),
                r, instrs_view(old(code).instructions@), instrs_view(final(code).instructions@), gen_state(*final(code))),
            ret.value is None && r is Err ==> *final(code) == *old(code),
    {
        let ghost v0 = instrs_view(code.instructions@);
        if let Some(value) = &ret.value {
            let r1 = self.generate_expression(code, value);
            if let Err(e) = r1 {
                return Err(e);
            }
            code.emit(Instruction::Pop(reg(Register::RAX)));
        }
        let ghost v1 = instrs_view(code.instructions@);
        match &self.current_function_epilogue {
            None => Err(string_of("return statement outside of function body")),
            Some(epilogue) => {
                code.emit(Instruction::Jmp(epilogue.clone()));
                proof {
                    let ctx = old(self).ctx(*old(code));
                    let c1 = if ret.value is Some {
                        gen_expr(ctx.sy, ctx.module, gen_state(*old(code)), ret.value->0)->Ok_0.0
                            + seq![pop_q(Register::RAX)]
                    } else {
                        Seq::empty()
                    };
                    assert(v1 =~= v0 + c1);
                    assert(instrs_view(code.instructions@) =~= v0 + (c1 + seq![InstrV::Jmp(epilogue@)]));
                }
                Ok(())
            },
        }
    }

    /// Lowers the statements of a block in order.
    fn generate_block(&mut self, code: &mut ModuleCode, stmts: &Vec<Statement>) -> (r: Result<(), String>)
        requires
            sym_wf(old(code).symbols@),
            stmts_fit(stmts@, 0),
        ensures
            final(code).symbols == old(code).symbols,
            *final(self) == *old(self),
            lowered(gen_stmts(old(self).ctx(*old(code)), gen_state(*old(code)), stmts@, stmts@.len() as int),
                r, instrs_view(old(code).instructions@), instrs_view(final(code).instructions@), gen_state(*final(code))),
        decreases stmts, 0int,
    {
        let ghost ctx = old(self).ctx(*old(code));
        let ghost st0 = gen_state(*old(code));
        let ghost v0 = instrs_view(code.instructions@);
        let mut i: usize = 0;
        assert(v0 =~= v0 + Seq::<InstrV>::empty());
        while i < stmts.len()
            invariant
                i <= stmts@.len(),
                ctx == old(self).ctx(*old(code)),
                st0 == gen_state(*old(code)),
                v0 == instrs_view(old(code).instructions@),
                sym_wf(code.symbols@),
                code.symbols == old(code).symbols,
                *self == *old(self),
                stmts_fit(stmts@, 0),
                gen_stmts(ctx, st0, stmts@, i as int) is Ok,
                ({
                    let (c, st) = gen_stmts(ctx, st0, stmts@, i as int)->Ok_0;
                    instrs_view(code.instructions@) == v0 + c && gen_state(*code) == st
                }),
            decreases stmts@.len() - i,
        {
            proof {
                lemma_stmts_fit_at(stmts@, 0, i as int);
            }
            let ghost st_i = gen_stmts(ctx, st0, stmts@, i as int)->Ok_0.1;
            let ghost c_i = gen_stmts(ctx, st0, stmts@, i as int)->Ok_0.0;
            assert(self.ctx(*code) == ctx);
            let r1 = self.generate_statement(code, &stmts[i]);
            if let Err(e) = r1 {
                proof {
                    assert(gen_stmts(ctx, st0, stmts@, i + 1) == gen_stmt(ctx, st_i, stmts@[i as int]));
                    lemma_stmts_err(ctx, st0, stmts@, i + 1, stmts@.len() as int);
                }
                return Err(e);
            }
            proof {
                let (c2, st2) = gen_stmt(ctx, st_i, stmts@[i as int])->Ok_0;
                assert(instrs_view(code.instructions@) =~= v0 + (c_i + c2));
            }
            i = i + 1;
        }
        Ok(())
    }

    /// Lowers `if (cond) { then } else { else }`.
    #[verifier::rlimit(80)]
    fn generate_if(&mut self, code: &mut ModuleCode, stmt: &Statement) -> (r: Result<(), String>)
        requires
            sym_wf(old(code).symbols@),
            stmt_fits(*stmt),
            stmt is If,
        ensures
            final(code).symbols == old(code).symbols,
            *final(self) == *old(self),
            lowered(gen_stmt(old(self).ctx(*old(code)), gen_state(*old(code)), *stmt),
                r, instrs_view(old(code).instructions@), instrs_view(final(code).instructions@), gen_state(*final(code))),
        decreases stmt, 1int,
    {
        let ghost ctx = old(self).ctx(*old(code));
        let ghost v0 = instrs_view(code.instructions@);
        if let Statement::If { condition, then_branch, else_branch } = stmt {
            let r1 = self.generate_expression(code, condition);
            if let Err(e) = r1 {
                return Err(e);
            }
            code.emit(Instruction::Pop(reg(Register::RAX)));
            let ghost c_before = code.label_counter;
            let else_label = code.new_label("else");
            let end_label = code.new_label("end");
            code.emit(Instruction::Cmp { left: reg(Register::RAX), right: Operand::Immediate(0) });
            code.emit(Instruction::Je(else_label.clone()));
            let ghost v1 = instrs_view(code.instructions@);
            assert(self.ctx(*code) == ctx);
            let r2 = self.generate_block(code, then_branch);
            if let Err(e) = r2 {
                return Err(e);
            }
            let ghost v2 = instrs_view(code.instructions@);
            code.emit(Instruction::Jmp(end_label.clone()));
            code.emit(Instruction::Label(else_label));
            let ghost v3 = instrs_view(code.instructions@);
            if let Some(else_branch) = else_branch {
                let r3 = self.generate_block(code, else_branch);
                if let Err(e) = r3 {
                    return Err(e);
                }
            }
            let ghost v4 = instrs_view(code.instructions@);
            code.emit(Instruction::Label(end_label));
            proof {
                let (c1, st1) = gen_expr(ctx.sy, ctx.module, gen_state(*old(code)), *condition)->Ok_0;
                assert(c_before == st1.counter);
                let st2 = with_counter(st1, next_count(next_count(st1.counter)));
                let (c2, st3) = gen_stmts(ctx, st2, then_branch@, then_branch@.len() as int)->Ok_0;
                let c3 = if else_branch is Some {
                    gen_stmts(ctx, st3, else_branch->0@, else_branch->0@.len() as int)->Ok_0.0
                } else {
                    Seq::empty()
                };
                assert(v1 =~= v0 + c1 + seq![pop_q(Register::RAX), test_rax_zero(),
                    InstrV::Je(label_text("else"@, st1.counter))]);
                assert(v4 =~= v3 + c3);
                assert(instrs_view(code.instructions@) =~= v0 + (c1
                    + seq![pop_q(Register::RAX), test_rax_zero(), InstrV::Je(label_text("else"@, st1.counter))] + c2
                    + seq![InstrV::Jmp(label_text("end"@, next_count(st1.counter))), InstrV::Label(label_text("else"@, st1.counter))]
                    + c3 + seq![InstrV::Label(label_text("end"@, next_count(st1.counter)))]));
            }
            Ok(())
        } else {
            Ok(())
        }
    }

    /// Lowers `while (cond) { body }`.
    #[verifier::rlimit(80)]
    fn generate_while(&mut self, code: &mut ModuleCode, stmt: &Statement) -> (r: Result<(), String>)
        requires
            sym_wf(old(code).symbols@),
            stmt_fits(*stmt),
            stmt is While,
        ensures
            final(code).symbols == old(code).symbols,
            *final(self) == *old(self),
            lowered(gen_stmt(old(self).ctx(*old(code)), gen_state(*old(code)), *stmt),
                r, instrs_view(old(code).instructions@), instrs_view(final(code).instructions@), gen_state(*final(code))),
        decreases stmt, 1int,
    {
        let ghost ctx = old(self).ctx(*old(code));
        let ghost v0 = instrs_view(code.instructions@);
        if let Statement::While { condition, body } = stmt {
            let start_label = code.new_label("start");
            let end_label = code.new_label("end");
            code.emit(Instruction::Label(start_label.clone()));
            let ghost v1 = instrs_view(code.instructions@);
            let r1 = self.generate_expression(code, condition);
            if let Err(e) = r1 {
                return Err(e);
            }
            let ghost v2 = instrs_view(code.instructions@);
            code.emit(Instruction::Pop(reg(Register::RAX)));
            code.emit(Instruction::Cmp { left: reg(Register::RAX), right: Operand::Immediate(0) });
            code.emit(Instruction::Je(end_label.clone()));
            let ghost v3 = instrs_view(code.instructions@);
            assert(self.ctx(*code) == ctx);
            let r2 = self.generate_block(code, body);
            if let Err(e) = r2 {
                return Err(e);
            }
            let ghost v4 = instrs_view(code.instructions@);
            code.emit(Instruction::Jmp(start_label));
            code.emit(Instruction::Label(end_label));
            proof {
                let st = gen_state(*old(code));
                let st1 = with_counter(st, next_count(next_count(st.counter)));
                let (c1, st2) = gen_expr(ctx.sy, ctx.module, st1, *condition)->Ok_0;
                let (c2, st3) = gen_stmts(ctx, st2, body@, body@.len() as int)->Ok_0;
                let start_l = label_text("start"@, st.counter);
                let end_l = label_text("end"@, next_count(st.counter));
                assert(v3 =~= v0 + seq![InstrV::Label(start_l)] + c1
                    + seq![pop_q(Register::RAX), test_rax_zero(), InstrV::Je(end_l)]);
                assert(instrs_view(code.instructions@) =~= v0 + (seq![InstrV::Label(start_l)] + c1
                    + seq![pop_q(Register::RAX), test_rax_zero(), InstrV::Je(end_l)] + c2
                    + seq![InstrV::Jmp(start_l), InstrV::Label(end_l)]));
            }
            Ok(())
        } else {
            Ok(())
        }
    }
}

impl CodeGenerator {
    /// Reserves slots for every assignment of a statement (nested blocks
    /// included) that has none yet in `symbols`.
    fn declare_locals_in_stmt_with_symbols(&mut self, symbols: &mut SymbolTable, stmt: &Statement)
        requires
            sym_wf(old(symbols)@),
            old(symbols)@.1 + 8 * assign_count(*stmt) <= i64::MAX,
        ensures
            final(symbols)@ == decl_stmt(old(symbols)@, *stmt),
            *final(self) == *old(self),
        decreases stmt, 1int,
    {
        proof {
            lemma_decl_stmt(symbols@, *stmt);
        }
        match stmt {
            Statement::Assignment(assign) => {
                if symbols.get(assign.name.as_str()).is_none() {
                    symbols.declare(assign.name.as_str());
                }
            },
            Statement::If { then_branch, else_branch, .. } => {
                self.declare_locals_in_block(symbols, then_branch);
                if let Some(else_branch) = else_branch {
                    proof {
                        lemma_decl_stmts(old(symbols)@, then_branch@, then_branch@.len() as int);
                    }
                    self.declare_locals_in_block(symbols, else_branch);
                }
            },
            Statement::While { body, .. } => {
                self.declare_locals_in_block(symbols, body);
            },
            _ => {},
        }
    }

    /// `declare_locals_in_stmt_with_symbols` over a block.
    fn declare_locals_in_block(&mut self, symbols: &mut SymbolTable, stmts: &Vec<Statement>)
        requires
            sym_wf(old(symbols)@),
            old(symbols)@.1 + 8 * assign_counts(stmts@, stmts@.len() as int) <= i64::MAX,
        ensures
            final(symbols)@ == decl_stmts(old(symbols)@, stmts@, stmts@.len() as int),
            *final(self) == *old(self),
        decreases stmts, 0int,
    {
        let ghost t0 = symbols@;
        let mut i: usize = 0;
        while i < stmts.len()
            invariant
                i <= stmts@.len(),
                t0 == old(symbols)@,
                sym_wf(t0),
                t0.1 + 8 * assign_counts(stmts@, stmts@.len() as int) <= i64::MAX,
                symbols@ == decl_stmts(t0, stmts@, i as int),
                *self == *old(self),
            decreases stmts@.len() - i,
        {
            proof {
                lemma_assign_counts_mono(stmts@, i + 1, stmts@.len() as int);
                lemma_decl_stmts(t0, stmts@, i as int);
                assert(assign_counts(stmts@, i + 1) == assign_counts(stmts@, i as int) + assign_count(stmts@[i as int]));
            }
            self.declare_locals_in_stmt_with_symbols(symbols, &stmts[i]);
            i = i + 1;
        }
    }

    /// Reserves slots in the module's table for the assignments of a
    /// statement.
    fn declare_locals_in_stmt(&mut self, code: &mut ModuleCode, stmt: &Statement)
        requires
            sym_wf(old(code).symbols@),
            old(code).symbols@.1 + 8 * assign_count(*stmt) <= i64::MAX,
        ensures
            final(code).symbols@ == decl_stmt(old(code).symbols@, *stmt),
            final(code).instructions == old(code).instructions,
            gen_state(*final(code)) == gen_state(*old(code)),
            *final(self) == *old(self),
    {
        self.declare_locals_in_stmt_with_symbols(&mut code.symbols, stmt);
    }
}

proof fn lemma_assign_counts_mono(list: Seq<Statement>, j: int, k: int)
    requires
        0 <= j <= k <= list.len(),
    ensures
        assign_counts(list, j) <= assign_counts(list, k),
    decreases k - j,
{
    if j < k {
        lemma_assign_counts_mono(list, j, k - 1);
    }
}

impl CodeGenerator {
    /// Lowers a function with its own frame and private symbol table:
    /// label, prologue, stores of the register parameters to their home
    /// slots, body, and an epilogue that `return` jumps to.
    fn generate_function(&mut self, code: &mut ModuleCode, func: &FunctionBlock) -> (r: Result<(), String>)
        requires
            function_fits(*func),
        ensures
            r is Ok ==> final(code).symbols == old(code).symbols,
            r is Ok ==> final(self).current_function_epilogue is None,
            final(self).current_module == old(self).current_module,
            final(self).format == old(self).format,
            lowered(gen_function(old(self).module_text(), old(self).format, gen_state(*old(code)), *func),
                r, instrs_view(old(code).instructions@), instrs_view(final(code).instructions@), gen_state(*final(code))),
    {
        let ghost t = function_symbols(*func);
        let ghost st0 = gen_state(*old(code));
        let ghost v0 = instrs_view(code.instructions@);
        proof {
            lemma_function_symbols(*func);
        }
        let mut func_symbols = SymbolTable::default();
        let n = func.params.len();
        let mut i: usize = 0;
        proof {
            lemma_decl_params(empty_table(), func.params@, n as int);
        }
        while i < n
            invariant
                i <= n,
                n == func.params@.len(),
                function_fits(*func),
                func_symbols@ == decl_params(empty_table(), func.params@, i as int),
            decreases n - i,
        {
            proof {
                lemma_decl_params(empty_table(), func.params@, i as int);
                lemma_decl_params(empty_table(), func.params@, i + 1);
            }
            func_symbols.declare(func.params[i].name.as_str());
            i = i + 1;
        }
        proof {
            lemma_decl_params(empty_table(), func.params@, n as int);
            lemma_assign_counts_mono(func.body@, func.body@.len() as int, func.body@.len() as int);
        }
        self.declare_locals_in_block(&mut func_symbols, &func.body);
        assert(func_symbols@ == t);
        let locals_size = align_to_16(func_symbols.next_offset());
        let frame_bytes = SHADOW_SPACE + locals_size + 8;
        assert(frame_bytes as int == frame_size(t));
        code.emit(Instruction::Label(func.name.clone()));
        code.emit(Instruction::Push(reg(Register::RBX)));
        code.emit(Instruction::Push(reg(Register::RBP)));
        code.emit(Instruction::Mov { dest: reg(Register::RBP), src: reg(Register::RSP) });
        code.emit(Instruction::Sub { dest: reg(Register::RSP), src: Operand::Immediate(frame_bytes) });
        let ghost v1 = instrs_view(code.instructions@);
        assert(v1 =~= v0 + seq![InstrV::Label(func.name@)] + prologue(frame_bytes));
        let mut k: usize = 0;
        assert(v1 =~= v1 + home_moves(t, func.params@, 0));
        while k < n
            invariant
                k <= n,
                k <= 4,
                n == func.params@.len(),
                func_symbols@ == t,
                sym_wf(t),
                forall|i: int| 0 <= i < n ==> slot_lookup(t.0, #[trigger] func.params@[i].name@) is Some,
                instrs_view(code.instructions@) == v1 + home_moves(t, func.params@, k as int),
                gen_state(*code) == st0,
                code.symbols == old(code).symbols,
                *self == *old(self),
                v1 == v0 + seq![InstrV::Label(func.name@)] + prologue(frame_bytes),
                v0 == instrs_view(old(code).instructions@),
                st0 == gen_state(*old(code)),
            decreases n - k,
        {
            if k < 4 {
                let found = func_symbols.get(func.params[k].name.as_str());
                proof {
                    lemma_sym_lookup_bounds(t, func.params@[k as int].name@);
                }
                let offset = found.unwrap();
                code.emit(Instruction::Mov { dest: rbp_slot(offset), src: reg(arg_register(k)) });
                k = k + 1;
                assert(instrs_view(code.instructions@) =~= v1 + home_moves(t, func.params@, k as int));
            } else {
                let mut msg = string_of("Function '");
                push_string(&mut msg, &func.name);
                push_str(&mut msg, "' has more than 4 parameters; not yet supported in Stage 0");
                assert(msg@ =~= too_many_params_message(func.name@));
                return Err(msg);
            }
        }
        assert(n <= 4);
        let ghost v2 = instrs_view(code.instructions@);
        let ghost c_ep = code.label_counter;
        let mut ep_prefix = func.name.clone();
        push_str(&mut ep_prefix, "_epilogue");
        let epilogue_label = code.new_label(ep_prefix.as_str());
        self.current_function_epilogue = Some(epilogue_label.clone());
        std::mem::swap(&mut code.symbols, &mut func_symbols);
        let ghost ctx = self.ctx(*code);
        assert(ctx == GenCtx {
            sy: t.0,
            module: old(self).module_text(),
            format: old(self).format,
            epilogue: Some(label_text(func.name@ + "_epilogue"@, c_ep)),
        });
        let r1 = self.generate_block(code, &func.body);
        if let Err(e) = r1 {
            return Err(e);
        }
        let ghost v3 = instrs_view(code.instructions@);
        std::mem::swap(&mut code.symbols, &mut func_symbols);
        self.current_function_epilogue = None;
        code.emit(Instruction::Label(epilogue_label));
        code.emit(Instruction::Add { dest: reg(Register::RSP), src: Operand::Immediate(frame_bytes) });
        code.emit(Instruction::Pop(reg(Register::RBP)));
        code.emit(Instruction::Pop(reg(Register::RBX)));
        code.emit(Instruction::Ret);
        proof {
            let ep = label_text(func.name@ + "_epilogue"@, st0.counter);
            let st1 = with_counter(st0, next_count(st0.counter));
            assert(gen_state(*old(code)) == st0);
            let (cb, st2) = gen_stmts(ctx, st1, func.body@, func.body@.len() as int)->Ok_0;
            assert(v3 == v2 + cb);
            assert(instrs_view(code.instructions@) =~= v0 + (seq![InstrV::Label(func.name@)] + prologue(frame_bytes)
                + home_moves(t, func.params@, func.params@.len() as int) + cb + seq![InstrV::Label(ep)]
                + epilogue(frame_bytes)));
        }
        Ok(())
    }
}

impl CodeGenerator {
    /// Terminates the program: the value on top of the stack goes to
    /// `ExitProcess` as the process exit code.
    fn emit_exit(&mut self, code: &mut ModuleCode)
        ensures
            instrs_view(final(code).instructions@) == instrs_view(old(code).instructions@) + exit_code(),
            gen_state(*final(code)) == with_extern(gen_state(*old(code)), "ExitProcess"@),
            final(code).symbols == old(code).symbols,
            *final(self) == *old(self),
    {
        code.add_extern("ExitProcess");
        code.emit(Instruction::Mov { dest: reg(Register::RCX), src: reg(Register::RAX) });
        code.emit(Instruction::Sub { dest: reg(Register::RSP), src: Operand::Immediate(SHADOW_SPACE) });
        self.emit_call_and_cleanup(code, "ExitProcess", 1);
        assert(instrs_view(code.instructions@) =~= instrs_view(old(code).instructions@) + exit_code());
    }

    /// Reserves slots in the module's table for the locals of its
    /// statements and of its functions' bodies.
    fn declare_locals(&mut self, code: &mut ModuleCode, module: &ModuleBlock)
        requires
            sym_wf(old(code).symbols@),
            old(code).symbols@.1 + 8 * (assign_counts(module.statements@, module.statements@.len() as int)
                + fn_assign_counts(module.functions@, module.functions@.len() as int)) <= i64::MAX,
        ensures
            final(code).symbols@ == decl_fn_bodies(
                decl_stmts(old(code).symbols@, module.statements@, module.statements@.len() as int),
                module.functions@, module.functions@.len() as int),
            final(code).instructions == old(code).instructions,
            gen_state(*final(code)) == gen_state(*old(code)),
            *final(self) == *old(self),
    {
        self.declare_locals_in_block(&mut code.symbols, &module.statements);
        let ghost t1 = code.symbols@;
        proof {
            lemma_decl_stmts(old(code).symbols@, module.statements@, module.statements@.len() as int);
        }
        let n = module.functions.len();
        let mut i: usize = 0;
        while i < n
            invariant
                i <= n,
                n == module.functions@.len(),
                sym_wf(t1),
                t1.1 + 8 * fn_assign_counts(module.functions@, n as int) <= i64::MAX,
                code.symbols@ == decl_fn_bodies(t1, module.functions@, i as int),
                code.instructions == old(code).instructions,
                gen_state(*code) == gen_state(*old(code)),
                *self == *old(self),
            decreases n - i,
        {
            proof {
                lemma_fn_assign_counts_mono(module.functions@, i + 1, n as int);
                lemma_decl_fn_bodies(t1, module.functions@, i as int);
            }
            self.declare_locals_in_block(&mut code.symbols, &module.functions[i].body);
            i = i + 1;
        }
    }

    /// Lowers the functions of a module, in order.
    fn generate_functions(&mut self, code: &mut ModuleCode, module: &ModuleBlock) -> (r: Result<(), String>)
        requires
            old(code).symbols@ == empty_table(),
            functions_fit(module.functions@, module.functions@.len() as int),
        ensures
            final(self).current_module == old(self).current_module,
            final(self).format == old(self).format,
            r is Ok ==> final(code).symbols == old(code).symbols,
            r is Ok ==> final(self).ctx(*final(code)).epilogue
                == if module.functions@.len() > 0 { None } else { old(self).ctx(*old(code)).epilogue },
            lowered(gen_functions(old(self).module_text(), old(self).format, gen_state(*old(code)), module.functions@,
                module.functions@.len() as int),
                r, instrs_view(old(code).instructions@), instrs_view(final(code).instructions@), gen_state(*final(code))),
    {
        let ghost mt = old(self).module_text();
        let ghost v0 = instrs_view(code.instructions@);
        let ghost st0 = gen_state(*code);
        let ghost epi0 = old(self).ctx(*old(code)).epilogue;
        let nf = module.functions.len();
        let mut i: usize = 0;
        assert(v0 =~= v0 + Seq::<InstrV>::empty());
        while i < nf
            invariant
                i <= nf,
                nf == module.functions@.len(),
                functions_fit(module.functions@, nf as int),
                mt == old(self).module_text(),
                self.current_module == old(self).current_module,
                self.format == old(self).format,
                i > 0 ==> self.current_function_epilogue is None,
                i == 0 ==> self.ctx(*code).epilogue == epi0,
                epi0 == old(self).ctx(*old(code)).epilogue,
                code.symbols == old(code).symbols,
                v0 == instrs_view(old(code).instructions@),
                st0 == gen_state(*old(code)),
                gen_functions(mt, self.format, st0, module.functions@, i as int) is Ok,
                ({
                    let (c, st) = gen_functions(mt, self.format, st0, module.functions@, i as int)->Ok_0;
                    instrs_view(code.instructions@) == v0 + c && gen_state(*code) == st
                }),
            decreases nf - i,
        {
            proof {
                lemma_functions_fit_at(module.functions@, nf as int, i as int);
            }
            let ghost c_i = gen_functions(mt, self.format, st0, module.functions@, i as int)->Ok_0.0;
            let ghost st_i = gen_functions(mt, self.format, st0, module.functions@, i as int)->Ok_0.1;
            assert(self.module_text() == mt);
            let r1 = self.generate_function(code, &module.functions[i]);
            if let Err(e) = r1 {
                proof {
                    assert(gen_functions(mt, old(self).format, st0, module.functions@, i + 1)
                        == gen_function(mt, old(self).format, st_i, module.functions@[i as int]));
                    lemma_functions_err(mt, old(self).format, st0, module.functions@, i + 1, nf as int);
                }
                return Err(e);
            }
            proof {
                let (c2, st2) = gen_function(mt, self.format, st_i, module.functions@[i as int])->Ok_0;
                assert(instrs_view(code.instructions@) =~= v0 + (c_i + c2));
            }
            i = i + 1;
        }
        Ok(())
    }

    /// Declares the global inputs, then the module's inputs.
    fn declare_inputs(&mut self, code: &mut ModuleCode, global_inputs: &[Parameter], module: &ModuleBlock)
        requires
            old(code).symbols@ == empty_table(),
            decl_count_ok((global_inputs@.len() + module.inputs@.len()) as int),
        ensures
            final(code).symbols@ == decl_params(empty_table(), global_inputs@ + module.inputs@,
                (global_inputs@.len() + module.inputs@.len()) as int),
            final(code).instructions == old(code).instructions,
            gen_state(*final(code)) == gen_state(*old(code)),
            *final(self) == *old(self),
    {
        let ghost inputs = global_inputs@ + module.inputs@;
        let ng = global_inputs.len();
        let nm = module.inputs.len();
        let mut j: usize = 0;
        while j < ng
            invariant
                j <= ng,
                ng == global_inputs@.len(),
                nm == module.inputs@.len(),
                inputs == global_inputs@ + module.inputs@,
                decl_count_ok(ng + nm),
                code.symbols@ == decl_params(empty_table(), inputs, j as int),
                code.instructions == old(code).instructions,
                gen_state(*code) == gen_state(*old(code)),
            decreases ng - j,
        {
            proof {
                lemma_decl_params(empty_table(), inputs, j as int);
            }
            assert(inputs[j as int] == global_inputs@[j as int]);
            code.symbols.declare(global_inputs[j].name.as_str());
            j = j + 1;
        }
        let mut j2: usize = 0;
        while j2 < nm
            invariant
                j2 <= nm,
                ng == global_inputs@.len(),
                nm == module.inputs@.len(),
                inputs == global_inputs@ + module.inputs@,
                decl_count_ok(ng + nm),
                code.symbols@ == decl_params(empty_table(), inputs, ng + j2),
                code.instructions == old(code).instructions,
                gen_state(*code) == gen_state(*old(code)),
            decreases nm - j2,
        {
            proof {
                lemma_decl_params(empty_table(), inputs, ng + j2);
            }
            assert(inputs[ng + j2] == module.inputs@[j2 as int]);
            code.symbols.declare(module.inputs[j2].name.as_str());
            j2 = j2 + 1;
        }
    }

    /// Stores the first four inputs from their argument registers to their
    /// slots.
    fn emit_input_homes(&mut self, code: &mut ModuleCode, global_inputs: &[Parameter], module: &ModuleBlock)
        requires
            sym_wf(old(code).symbols@),
            forall|i: int| 0 <= i < (global_inputs@ + module.inputs@).len() ==>
                slot_lookup(old(code).symbols@.0, #[trigger] (global_inputs@ + module.inputs@)[i].name@) is Some,
        ensures
            instrs_view(final(code).instructions@) == instrs_view(old(code).instructions@)
                + home_moves(old(code).symbols@, global_inputs@ + module.inputs@,
                    (global_inputs@.len() + module.inputs@.len()) as int),
            gen_state(*final(code)) == gen_state(*old(code)),
            final(code).symbols == old(code).symbols,
            *final(self) == *old(self),
    {
        let ghost inputs = global_inputs@ + module.inputs@;
        let ghost t = code.symbols@;
        let ghost v1 = instrs_view(code.instructions@);
        let ng = global_inputs.len();
        let nm = module.inputs.len();
        let mut k: usize = 0;
        assert(v1 =~= v1 + home_moves(t, inputs, 0));
        while k < 4 && (k < ng || k - ng < nm)
            invariant
                k <= 4,
                k <= inputs.len(),
                ng == global_inputs@.len(),
                nm == module.inputs@.len(),
                inputs == global_inputs@ + module.inputs@,
                t == old(code).symbols@,
                v1 == instrs_view(old(code).instructions@),
                code.symbols == old(code).symbols,
                sym_wf(t),
                forall|i: int| 0 <= i < inputs.len() ==> slot_lookup(t.0, #[trigger] inputs[i].name@) is Some,
                instrs_view(code.instructions@) == v1 + home_moves(t, inputs, k as int),
                gen_state(*code) == gen_state(*old(code)),
            decreases 4 - k,
        {
            let found = if k < ng {
                code.symbols.get(global_inputs[k].name.as_str())
            } else {
                code.symbols.get(module.inputs[k - ng].name.as_str())
            };
            assert(inputs[k as int].name@ == if k < ng { global_inputs@[k as int].name@ } else { module.inputs@[k - ng].name@ });
            proof {
                lemma_sym_lookup_bounds(t, inputs[k as int].name@);
            }
            let offset = found.unwrap();
            code.emit(Instruction::Mov { dest: rbp_slot(offset), src: reg(arg_register(k)) });
            k = k + 1;
            assert(instrs_view(code.instructions@) =~= v1 + home_moves(t, inputs, k as int));
        }
        proof {
            lemma_home_moves_cap(t, inputs, k as int, inputs.len() as int);
        }
    }

    /// Lowers a module into `code`: `ExitProcess` is declared, functions
    /// come first, then the entry block.
    #[verifier::rlimit(100)]
    fn generate_module(&mut self, code: &mut ModuleCode, module: &ModuleBlock, global_inputs: &[Parameter])
        -> (r: Result<(), String>)
        requires
            old(code).symbols@ == empty_table(),
            module_fits(*module, global_inputs@.len() as int),
            old(self).current_module == Some(module.name),
        ensures
            final(self).current_module == old(self).current_module,
            final(self).format == old(self).format,
            match gen_module(old(self).format, old(self).ctx(*old(code)).epilogue, gen_state(*old(code)), *module,
                global_inputs@) {
                Ok((is, st, epi)) => r is Ok
                    && instrs_view(final(code).instructions@) == instrs_view(old(code).instructions@) + is
                    && gen_state(*final(code)) == st
                    && final(self).ctx(*final(code)).epilogue == epi
                    && final(code).symbols@ == module_symbols(*module, global_inputs@ + module.inputs@),
                Err(msg) => r matches Err(m) && m@ == msg,
            },
    {
        let ghost v0 = instrs_view(code.instructions@);
        code.add_extern("ExitProcess");
        assert(gen_state(*code) == with_extern(gen_state(*old(code)), "ExitProcess"@));
        assert(self.module_text() == module.name@);
        let r1 = self.generate_functions(code, module);
        if let Err(e) = r1 {
            return Err(e);
        }
        let ghost cf = instrs_view(code.instructions@);
        let ghost st1 = gen_state(*code);
        let entry = code.new_label("entry");
        code.emit(Instruction::Label(entry));
        let ghost inputs = global_inputs@ + module.inputs@;
        proof {
            lemma_module_symbols(*module, global_inputs@);
            lemma_decl_params(empty_table(), inputs, inputs.len() as int);
        }
        self.declare_inputs(code, global_inputs, module);
        self.declare_locals(code, module);
        let ghost t = code.symbols@;
        assert(t == module_symbols(*module, inputs));
        let locals_size = align_to_16(code.symbols.next_offset());
        let frame_bytes = SHADOW_SPACE + locals_size + 8;
        code.emit(Instruction::Push(reg(Register::RBX)));
        code.emit(Instruction::Push(reg(Register::RBP)));
        code.emit(Instruction::Mov { dest: reg(Register::RBP), src: reg(Register::RSP) });
        code.emit(Instruction::Sub { dest: reg(Register::RSP), src: Operand::Immediate(frame_bytes) });
        self.emit_input_homes(code, global_inputs, module);
        let ghost v2 = instrs_view(code.instructions@);
        let ghost st2 = gen_state(*code);
        let ghost ctx = self.ctx(*code);
        let r2 = self.generate_block(code, &module.statements);
        if let Err(e) = r2 {
            return Err(e);
        }
        let ghost v3 = instrs_view(code.instructions@);
        self.emit_exit(code);
        code.emit(Instruction::Add { dest: reg(Register::RSP), src: Operand::Immediate(frame_bytes) });
        code.emit(Instruction::Pop(reg(Register::RBP)));
        code.emit(Instruction::Pop(reg(Register::RBX)));
        code.emit(Instruction::Ret);
        proof {
            let (cs, st3) = gen_stmts(ctx, st2, module.statements@, module.statements@.len() as int)->Ok_0;
            assert(frame_bytes as int == frame_size(t));
            let c_f = gen_functions(module.name@, old(self).format, with_extern(gen_state(*old(code)), "ExitProcess"@),
                module.functions@, module.functions@.len() as int)->Ok_0.0;
            assert(cf == v0 + c_f);
            assert(instrs_view(code.instructions@) =~= v0 + (c_f
                + seq![InstrV::Label(label_text("entry"@, st1.counter))] + prologue(frame_bytes)
                + home_moves(t, inputs, inputs.len() as int) + cs + exit_code() + epilogue(frame_bytes)));
        }
        Ok(())
    }
}

proof fn lemma_home_moves_cap(t: SymView, ps: Seq<Parameter>, k: int, n: int)
    requires
        0 <= k <= n,
        n <= ps.len(),
        k == 4 || k == n,
    ensures
        home_moves(t, ps, n) == home_moves(t, ps, k),
    decreases n - k,
{
    if k < n {
        lemma_home_moves_cap(t, ps, k, n - 1);
    }
}

proof fn lemma_fn_assign_counts_mono(fs: Seq<FunctionBlock>, j: int, k: int)
    requires
        0 <= j <= k <= fs.len(),
    ensures
        fn_assign_counts(fs, j) <= fn_assign_counts(fs, k),
    decreases k - j,
{
    if j < k {
        lemma_fn_assign_counts_mono(fs, j, k - 1);
    }
}

proof fn lemma_functions_err(mt: Seq<char>, format: OutputFormat, st: GenState, fs: Seq<FunctionBlock>, j: int, k: int)
    requires
        0 < j <= k <= fs.len(),
        gen_functions(mt, format, st, fs, j) is Err,
    ensures
        gen_functions(mt, format, st, fs, k) == gen_functions(mt, format, st, fs, j),
    decreases k - j,
{
    if j < k {
        lemma_functions_err(mt, format, st, fs, j, k - 1);
    }
}

proof fn lemma_args_rev_err(sy: Seq<(Seq<char>, i64)>, m: Seq<char>, st: GenState,
    args: Seq<Expression>, i: int, j: int)
    requires
        0 <= i <= j < args.len(),
        gen_args_rev(sy, m, st, args, j) is Err,
    ensures
        gen_args_rev(sy, m, st, args, i) == gen_args_rev(sy, m, st, args, j),
    decreases j - i,
{
    if i < j {
        lemma_args_rev_err(sy, m, st, args, i + 1, j);
    }
}

/// Where `args[i]` is the argument whose lowering fails, every `args[j..]`
/// with `j <= i` leaves behind what `args[i..]` does.
proof fn lemma_args_partial_err(sy: Seq<(Seq<char>, i64)>, m: Seq<char>, st: GenState,
    args: Seq<Expression>, j: int, i: int)
    requires
        0 <= j <= i < args.len(),
        gen_args_rev(sy, m, st, args, i) is Err,
        gen_args_rev(sy, m, st, args, i + 1) is Ok,
    ensures
        args_partial(sy, m, st, args, j) == args_partial(sy, m, st, args, i),
    decreases i - j,
{
    if j < i {
        lemma_args_rev_err(sy, m, st, args, j + 1, i);
        lemma_args_partial_err(sy, m, st, args, j + 1, i);
    }
}

proof fn lemma_args_fit_at(args: Seq<Expression>, i: int, j: int)
    requires
        0 <= i <= j < args.len(),
        args_fit(args, i),
    ensures
        expr_fits(args[j]),
        args_fit(args, j),
    decreases j - i,
{
    if i < j {
        lemma_args_fit_at(args, i + 1, j);
    }
}

// ---------------------------------------------------------------------------
// Whole programs
// ---------------------------------------------------------------------------

/// The text `f64`, the one type name that makes a global input a float.
pub open spec fn float_type_name() -> Seq<char> {
    seq!['f', '6', '4']
}

/// The type of a global input declared with type text `t`: the float type
/// for `f64`, the integer type for anything else.
pub open spec fn input_type(t: Seq<char>) -> ValueType {
    if t == float_type_name() { ValueType::F64 } else { ValueType::I64 }
}

/// The number of global inputs of a program.
pub open spec fn n_globals(p: Program) -> int {
    match p.inputs {
        Some(ib) => ib.items@.len() as int,
        None => 0,
    }
}

/// `g` lists the program's global inputs as parameters, in order.
pub open spec fn globals_of(p: Program, g: Seq<Parameter>) -> bool {
    &&& g.len() == n_globals(p)
    &&& forall|i: int| #![trigger g[i]] 0 <= i < g.len() ==> (p.inputs matches Some(ib)
        && g[i].name@ == ib.items@[i].0@ && g[i].ty == input_type(ib.items@[i].1@))
}

/// Every module of the program is within the machine limits of lowering.
pub open spec fn program_fits(p: Program) -> bool {
    forall|i: int| 0 <= i < p.modules@.len() ==> module_fits(#[trigger] p.modules@[i], n_globals(p))
}

/// Lowering of one module into a fresh module (`gen_module` from the fresh
/// state); kept folded where whole programs are reasoned about.
#[verifier::opaque]
pub open spec fn fresh_module_result(format: OutputFormat, epi: Option<Seq<char>>, m: ModuleBlock,
    globals: Seq<Parameter>) -> Result<(Seq<InstrV>, GenState, Option<Seq<char>>), Seq<char>> {
    gen_module(format, epi, fresh_state(), m, globals)
}

/// Lowering of the first `k` modules, each into a fresh module, with the
/// generator's epilogue label threaded through: the instructions and state
/// of each, and the epilogue label afterwards; or the first error.
pub open spec fn gen_program(format: OutputFormat, epi: Option<Seq<char>>, ms: Seq<ModuleBlock>,
    globals: Seq<Parameter>, k: int) -> Result<(Seq<(Seq<InstrV>, GenState)>, Option<Seq<char>>), Seq<char>>
    decreases k,
{
    if k <= 0 || k > ms.len() {
        Ok((Seq::empty(), epi))
    } else {
        match gen_program(format, epi, ms, globals, k - 1) {
            Err(msg) => Err(msg),
            Ok((done, e)) => match fresh_module_result(format, e, ms[k - 1], globals) {
                Err(msg) => Err(msg),
                Ok((is, st, e2)) => Ok((done.push((is, st)), e2)),
            },
        }
    }
}

/// The message for a PE request through the text interface.
pub open spec fn pe_as_text_message() -> Seq<char> {
    "Pe format cannot be returned as String; use generate_modules + encode directly"@
}

proof fn lemma_gen_program_err(format: OutputFormat, epi: Option<Seq<char>>, ms: Seq<ModuleBlock>,
    globals: Seq<Parameter>, j: int, k: int)
    requires
        0 < j <= k <= ms.len(),
        gen_program(format, epi, ms, globals, j) is Err,
    ensures
        gen_program(format, epi, ms, globals, k) == gen_program(format, epi, ms, globals, j),
    decreases k - j,
{
    if j < k {
        lemma_gen_program_err(format, epi, ms, globals, j, k - 1);
    }
}

/// The global inputs of a program as parameters.
fn global_inputs(program: &Program) -> (g: Vec<Parameter>)
    ensures
        globals_of(*program, g@),
{
    let mut g: Vec<Parameter> = Vec::new();
    if let Some(ib) = &program.inputs {
        let mut float_name = String::new();
        crate::text::push_char(&mut float_name, 'f');
        crate::text::push_char(&mut float_name, '6');
        crate::text::push_char(&mut float_name, '4');
        assert(float_name@ =~= float_type_name());
        let mut i: usize = 0;
        while i < ib.items.len()
            invariant
                program.inputs == Some(*ib),
                i <= ib.items@.len(),
                g@.len() == i,
                float_name@ == float_type_name(),
                forall|k: int| #![trigger g@[k]] 0 <= k < i ==> g@[k].name@ == ib.items@[k].0@
                    && g@[k].ty == input_type(ib.items@[k].1@),
            decreases ib.items@.len() - i,
        {
            let ty = if ib.items[i].1 == float_name { ValueType::F64 } else { ValueType::I64 };
            g.push(Parameter { name: ib.items[i].0.clone(), ty });
            i = i + 1;
        }
    }
    g
}

impl CodeGenerator {
    /// The epilogue label of the function being generated, if any.
    pub closed spec fn pending_epilogue(&self) -> Option<Seq<char>> {
        match self.current_function_epilogue {
            Some(e) => Some(e@),
            None => None,
        }
    }

    /// The output format the generator was last asked for.
    pub closed spec fn format_view(&self) -> OutputFormat {
        self.format
    }

    /// Lowers one module into a fresh compiled module.
    fn generate_one(&mut self, module: &ModuleBlock, globals: &Vec<Parameter>) -> (r: Result<ModuleCode, String>)
        requires
            module_fits(*module, globals@.len() as int),
        ensures
            final(self).format == old(self).format,
            match fresh_module_result(old(self).format, old(self).pending_epilogue(), *module, globals@) {
                Ok((is, st, e2)) => r matches Ok(c) && crate::output::module_view(c) == (is, st)
                    && c.symbols@ == module_symbols(*module, globals@ + module.inputs@)
                    && final(self).pending_epilogue() == e2
                    && forall|k: int| 0 <= k < c.instructions@.len()
                        ==> crate::ir::instr_printable(#[trigger] c.instructions@[k]@),
                Err(msg) => r matches Err(m) && m@ == msg,
            },
    {
        reveal(fresh_module_result);
        let mut code = ModuleCode::new(module.name.as_str());
        assert(gen_state(code) == fresh_state()) by {
            assert(strs_view(code.externs@) =~= Seq::<Seq<char>>::empty());
            assert(data_view(code.data_items@) =~= Seq::<(Seq<char>, Seq<u8>)>::empty());
        }
        self.current_module = Some(module.name.clone());
        assert(self.ctx(code).epilogue == old(self).pending_epilogue());
        let r = self.generate_module(&mut code, module, globals.as_slice());
        if let Err(e) = r {
            return Err(e);
        }
        proof {
            let (is, st, e2) = gen_module(old(self).format, old(self).pending_epilogue(), fresh_state(), *module,
                globals@)->Ok_0;
            assert(instrs_view(code.instructions@) =~= is);
            crate::shape::lemma_module_printable(old(self).format, old(self).pending_epilogue(), fresh_state(),
                *module, globals@);
            assert forall|k: int| 0 <= k < code.instructions@.len()
                implies crate::ir::instr_printable(#[trigger] code.instructions@[k]@) by {
                assert(instrs_view(code.instructions@)[k] == code.instructions@[k]@);
                assert(crate::shape::instrv_printable(is[k]));
            }
        }
        Ok(code)
    }

    /// Lowers every module of a program into its own compiled module, in
    /// order; stops at the first error.
    #[verifier::rlimit(60)]
    pub fn generate_modules(&mut self, program: &Program, format: OutputFormat)
        -> (r: Result<Vec<ModuleCode>, String>)
        requires
            program_fits(*program),
        ensures
            final(self).format_view() == format,
            exists|g: Seq<Parameter>| #[trigger] globals_of(*program, g) && match gen_program(format,
                old(self).pending_epilogue(), program.modules@, g, program.modules@.len() as int) {
                Ok((ms, epi)) => r matches Ok(v) && v@.map_values(|c: ModuleCode| crate::output::module_view(c)) == ms
                    && final(self).pending_epilogue() == epi
                    && forall|i: int| 0 <= i < v@.len() ==> (#[trigger] v@[i]).symbols@ == module_symbols(
                        program.modules@[i], g + program.modules@[i].inputs@),
                Err(msg) => r matches Err(m) && m@ == msg,
            },
            r matches Ok(v) ==> crate::output::modules_printable(v@),
    {
        self.format = format;
        let globals = global_inputs(program);
        let ghost epi0 = old(self).pending_epilogue();
        let ghost ms = program.modules@;
        let mut modules: Vec<ModuleCode> = Vec::new();
        let mut i: usize = 0;
        while i < program.modules.len()
            invariant
                self.format == format,
                ms == program.modules@,
                epi0 == old(self).pending_epilogue(),
                globals_of(*program, globals@),
                program_fits(*program),
                i <= ms.len(),
                gen_program(format, epi0, ms, globals@, i as int) matches Ok((done, epi))
                    && modules@.map_values(|c: ModuleCode| crate::output::module_view(c)) == done
                    && self.pending_epilogue() == epi,
                crate::output::modules_printable(modules@),
                modules@.len() == i,
                forall|j: int| 0 <= j < i ==> (#[trigger] modules@[j]).symbols@ == module_symbols(ms[j],
                    globals@ + ms[j].inputs@),
            decreases ms.len() - i,
        {
            let ghost prev = gen_program(format, epi0, ms, globals@, i as int)->Ok_0;
            assert(module_fits(program.modules@[i as int], n_globals(*program)));
            let r = self.generate_one(&program.modules[i], &globals);
            let code = match r {
                Ok(c) => c,
                Err(e) => {
                    proof {
                        assert(gen_program(format, epi0, ms, globals@, i + 1) == Err::<(Seq<(Seq<InstrV>, GenState)>,
                            Option<Seq<char>>), Seq<char>>(e@));
                        lemma_gen_program_err(format, epi0, ms, globals@, (i + 1) as int, ms.len() as int);
                        assert(globals_of(*program, globals@));
                        assert(gen_program(format, old(self).pending_epilogue(), program.modules@, globals@,
                            program.modules@.len() as int) == Err::<(Seq<(Seq<InstrV>, GenState)>,
                            Option<Seq<char>>), Seq<char>>(e@));
                    }
                    return Err(e);
                },
            };
            let ghost before = modules@;
            modules.push(code);
            proof {
                assert(modules@.map_values(|c: ModuleCode| crate::output::module_view(c)) =~= before.map_values(
                    |c: ModuleCode| crate::output::module_view(c)).push(crate::output::module_view(code)));
                assert forall|j: int| 0 <= j < i + 1 implies (#[trigger] modules@[j]).symbols@ == module_symbols(ms[j],
                    globals@ + ms[j].inputs@) by {
                    if j < i {
                        assert(modules@[j] == before[j]);
                    }
                }
                assert forall|m: int, k: int| 0 <= m < modules@.len() && 0 <= k < modules@[m].instructions@.len()
                    implies crate::ir::instr_printable(#[trigger] modules@[m].instructions@[k]@) by {
                    if m < before.len() {
                        assert(modules@[m] == before[m]);
                    }
                }
            }
            i = i + 1;
        }
        assert(globals_of(*program, globals@));
        assert(gen_program(format, epi0, ms, globals@, ms.len() as int) matches Ok((done, epi))
            && modules@.map_values(|c: ModuleCode| crate::output::module_view(c)) == done
            && self.pending_epilogue() == epi
            && forall|j: int| 0 <= j < modules@.len() ==> (#[trigger] modules@[j]).symbols@ == module_symbols(
                program.modules@[j], globals@ + program.modules@[j].inputs@));
        Ok(modules)
    }

    /// Lowers a program and renders it as text: NASM assembly or a Rust
    /// source file. A PE image has no text form and is refused.
    pub fn generate(&mut self, program: &Program, format: OutputFormat) -> (r: Result<String, String>)
        requires
            program_fits(*program),
        ensures
            exists|g: Seq<Parameter>| #[trigger] globals_of(*program, g) && match gen_program(format,
                old(self).pending_epilogue(), program.modules@, g, program.modules@.len() as int) {
                Ok((ms, _)) => match format {
                    OutputFormat::Asm => r matches Ok(s) && s@ == crate::output::asm_text(ms),
                    OutputFormat::RustSource => r matches Ok(s) && s@ == crate::rust_source::rust_source_text(ms),
                    OutputFormat::Pe => r matches Err(m) && m@ == pe_as_text_message(),
                },
                Err(msg) => r matches Err(m) && m@ == msg,
            },
    {
        let modules = match self.generate_modules(program, format) {
            Ok(v) => v,
            Err(e) => return Err(e),
        };
        match format {
            OutputFormat::Asm => Ok(crate::output::format_as_asm(modules.as_slice())),
            OutputFormat::RustSource => crate::rust_source::format_rust_source(modules.as_slice()),
            OutputFormat::Pe => Err(string_of("Pe format cannot be returned as String; use generate_modules + encode directly")),
        }
    }
}


// ---------------------------------------------------------------------------
// Laws of the tables
// ---------------------------------------------------------------------------

/// Law: after declaring `name`, looking it up gives the offset just handed
/// out, and looking up any other name gives what it gave before.
pub proof fn lemma_declare_then_get(t: SymView, name: Seq<char>, other: Seq<char>)
    ensures
        slot_lookup(sym_declare(t, name).0, name) == Some(sym_declare(t, name).1),
        other != name ==> slot_lookup(sym_declare(t, name).0, other) == slot_lookup(t.0, other),
{
    assert(sym_declare(t, name).0.drop_last() =~= t.0);
}

/// Law: declaring an extern that is already declared changes nothing, so
/// each extern is declared once however often it is added.
pub proof fn lemma_extern_add_twice(e: Seq<Seq<char>>, sym: Seq<char>)
    ensures
        extern_add(extern_add(e, sym), sym) == extern_add(e, sym),
        extern_add(e, sym).contains(sym),
{
    if !e.contains(sym) {
        assert(e.push(sym)[e.len() as int] == sym);
    }
}

/// Law: interning the same bytes again, under any name, gives the label
/// they got the first time and changes neither the counter nor the data.
pub proof fn lemma_intern_twice(c: usize, d: DataView, name: Seq<char>, name2: Seq<char>, bytes: Seq<u8>)
    ensures
        ({
            let (l1, c1, d1) = intern_spec(c, d, name, bytes);
            let (l2, c2, d2) = intern_spec(c1, d1, name2, bytes);
            l2 == l1 && c2 == c1 && d2 == d1
        }),
{
    let (l1, c1, d1) = intern_spec(c, d, name, bytes);
    if find_data(d, bytes) is None {
        assert(d1.drop_last() =~= d);
        assert(d1.last().1 == bytes);
        assert(find_data(d1, bytes) == Some(d.len() as int));
    }
}

} // verus!
