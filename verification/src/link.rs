//! Joining the machine code of compiled modules into one program, and
//! packaging it as an executable image.

use vstd::prelude::*;
use crate::codegen::{DataView, ModuleCode, bytes_to_vec, data_view, strs_view};
use crate::ir::instrs_view;
use crate::pe::{build_pe, data_len, fixups_fit, hint_size, pe_image, pe_inputs_fit, utf8_len};
use crate::text::string_of;
use crate::x64::{
    ExternFixup, RipRelFixup, encodable, encode, encoded, extern_fixups_view, iat_fixups, lemma_encoded_within,
    resolved, rip_fixups, riprel_fixups_view,
};

verus! {

// ---------------------------------------------------------------------------
// The linked program
// ---------------------------------------------------------------------------

/// Every instruction of a module can be encoded, and there are not too many.
pub open spec fn module_encodable(m: ModuleCode) -> bool {
    &&& forall|i: int| 0 <= i < m.instructions@.len() ==> encodable(#[trigger] m.instructions@[i]@)
    &&& m.instructions@.len() <= 0x0100_0000_0000_0000
}

/// The machine code of a module, with its own jumps resolved.
pub open spec fn module_code(m: ModuleCode) -> Seq<u8> {
    let e = encoded(strs_view(m.externs@), instrs_view(m.instructions@));
    resolved(e.code, e.labels, e.fixups, e.fixups.len() as int)
}

/// The calls of a module through the import table.
pub open spec fn module_iat(m: ModuleCode) -> Seq<(u64, Seq<char>)> {
    let e = encoded(strs_view(m.externs@), instrs_view(m.instructions@));
    iat_fixups(e.fixups, e.fixups.len() as int)
}

/// The references of a module to labels it does not define (data).
pub open spec fn module_rip(m: ModuleCode) -> Seq<(u64, Seq<char>)> {
    let e = encoded(strs_view(m.externs@), instrs_view(m.instructions@));
    rip_fixups(e.fixups, e.labels, e.fixups.len() as int)
}

/// Relocations moved `d` bytes further into the code.
pub open spec fn shifted(fs: Seq<(u64, Seq<char>)>, d: int) -> Seq<(u64, Seq<char>)> {
    fs.map_values(|f: (u64, Seq<char>)| ((f.0 + d) as u64, f.1))
}

/// The code of the first `k` modules, one after the other.
pub open spec fn linked_code(ms: Seq<ModuleCode>, k: int) -> Seq<u8>
    decreases k,
{
    if k <= 0 { Seq::empty() } else { linked_code(ms, k - 1) + module_code(ms[k - 1]) }
}

/// The import-table calls of the first `k` modules, at their places in the
/// linked code.
pub open spec fn linked_iat(ms: Seq<ModuleCode>, k: int) -> Seq<(u64, Seq<char>)>
    decreases k,
{
    if k <= 0 {
        Seq::empty()
    } else {
        linked_iat(ms, k - 1) + shifted(module_iat(ms[k - 1]), linked_code(ms, k - 1).len() as int)
    }
}

/// The data references of the first `k` modules, at their places in the
/// linked code.
pub open spec fn linked_rip(ms: Seq<ModuleCode>, k: int) -> Seq<(u64, Seq<char>)>
    decreases k,
{
    if k <= 0 {
        Seq::empty()
    } else {
        linked_rip(ms, k - 1) + shifted(module_rip(ms[k - 1]), linked_code(ms, k - 1).len() as int)
    }
}

/// The data items of the first `k` modules, in order.
pub open spec fn linked_data(ms: Seq<ModuleCode>, k: int) -> DataView
    decreases k,
{
    if k <= 0 { Seq::empty() } else { linked_data(ms, k - 1) + data_view(ms[k - 1].data_items@) }
}

/// `acc` followed by the first `j` of `ns` that are not in it yet.
pub open spec fn with_names(acc: Seq<Seq<char>>, ns: Seq<Seq<char>>, j: int) -> Seq<Seq<char>>
    decreases j,
{
    if j <= 0 {
        acc
    } else {
        let a = with_names(acc, ns, j - 1);
        if a.contains(ns[j - 1]) { a } else { a.push(ns[j - 1]) }
    }
}

/// The externs of the first `k` modules, each once, in order of first use.
pub open spec fn linked_externs(ms: Seq<ModuleCode>, k: int) -> Seq<Seq<char>>
    decreases k,
{
    if k <= 0 {
        Seq::empty()
    } else {
        with_names(linked_externs(ms, k - 1), strs_view(ms[k - 1].externs@), ms[k - 1].externs@.len() as int)
    }
}

/// Every relocation's four bytes lie within `n` bytes of code.
pub open spec fn fixups_within(fs: Seq<(u64, Seq<char>)>, n: int) -> bool {
    forall|j: int| 0 <= j < fs.len() ==> #[trigger] fs[j].0 + 4 <= n
}

/// A name occurs at most once in the names that `with_names` gathers from
/// names that occur at most once.
pub proof fn lemma_with_names_distinct(acc: Seq<Seq<char>>, ns: Seq<Seq<char>>, j: int)
    requires
        acc.no_duplicates(),
    ensures
        with_names(acc, ns, j).no_duplicates(),
    decreases j,
{
    if j > 0 {
        lemma_with_names_distinct(acc, ns, j - 1);
    }
}

/// The linked externs name each function once.
pub proof fn lemma_linked_externs_distinct(ms: Seq<ModuleCode>, k: int)
    ensures
        linked_externs(ms, k).no_duplicates(),
    decreases k,
{
    if k > 0 {
        lemma_linked_externs_distinct(ms, k - 1);
        lemma_with_names_distinct(linked_externs(ms, k - 1), strs_view(ms[k - 1].externs@),
            ms[k - 1].externs@.len() as int);
    }
}

/// `with_names` keeps what `acc` holds and adds each of the first `j` names.
pub proof fn lemma_with_names_contains(acc: Seq<Seq<char>>, ns: Seq<Seq<char>>, j: int)
    requires
        0 <= j <= ns.len(),
    ensures
        forall|x: Seq<char>| acc.contains(x) ==> #[trigger] with_names(acc, ns, j).contains(x),
        forall|i: int| 0 <= i < j ==> with_names(acc, ns, j).contains(#[trigger] ns[i]),
    decreases j,
{
    if j > 0 {
        lemma_with_names_contains(acc, ns, j - 1);
        let a = with_names(acc, ns, j - 1);
        if !a.contains(ns[j - 1]) {
            assert(a.push(ns[j - 1])[a.len() as int] == ns[j - 1]);
            assert forall|x: Seq<char>| a.contains(x) implies #[trigger] a.push(ns[j - 1]).contains(x) by {
                let i = choose|i: int| 0 <= i < a.len() && a[i] == x;
                assert(a.push(ns[j - 1])[i] == x);
            }
        }
    }
}

/// Law: the linked externs hold every extern of every module, so the image
/// imports each function that some module calls through the import table.
pub proof fn lemma_linked_externs_complete(ms: Seq<ModuleCode>, k: int)
    requires
        0 <= k <= ms.len(),
    ensures
        forall|i: int, j: int| 0 <= i < k && 0 <= j < ms[i].externs@.len()
            ==> linked_externs(ms, k).contains(#[trigger] ms[i].externs@[j]@),
    decreases k,
{
    if k > 0 {
        lemma_linked_externs_complete(ms, k - 1);
        let ns = strs_view(ms[k - 1].externs@);
        lemma_with_names_contains(linked_externs(ms, k - 1), ns, ns.len() as int);
        assert forall|i: int, j: int| 0 <= i < k && 0 <= j < ms[i].externs@.len()
            implies linked_externs(ms, k).contains(#[trigger] ms[i].externs@[j]@) by {
            if i == k - 1 {
                assert(ns[j] == ms[i].externs@[j]@);
            } else {
                assert(linked_externs(ms, k - 1).contains(ms[i].externs@[j]@));
            }
        }
    }
}

// ---------------------------------------------------------------------------
// Linking
// ---------------------------------------------------------------------------

/// Whether `v` holds `s`.
fn contains_name(v: &Vec<String>, s: &String) -> (r: bool)
    ensures
        r == strs_view(v@).contains(s@),
{
    let mut i: usize = 0;
    while i < v.len()
        invariant
            i <= v@.len(),
            forall|j: int| 0 <= j < i ==> strs_view(v@)[j] != s@,
        decreases v@.len() - i,
    {
        if v[i] == *s {
            assert(strs_view(v@)[i as int] == s@);
            return true;
        }
        i = i + 1;
    }
    false
}

/// Appends the names of `ns` that `out` does not hold yet.
fn merge_names(out: &mut Vec<String>, ns: &Vec<String>)
    ensures
        strs_view(final(out)@) == with_names(strs_view(old(out)@), strs_view(ns@), ns@.len() as int),
{
    let ghost acc = strs_view(out@);
    let mut j: usize = 0;
    while j < ns.len()
        invariant
            j <= ns@.len(),
            acc == strs_view(old(out)@),
            strs_view(out@) == with_names(acc, strs_view(ns@), j as int),
        decreases ns@.len() - j,
    {
        if !contains_name(out, &ns[j]) {
            let ghost before = out@;
            out.push(ns[j].clone());
            assert(strs_view(out@) =~= strs_view(before).push(ns@[j as int]@));
        }
        j = j + 1;
    }
}

/// Appends the data items of `items`.
fn push_data(out: &mut Vec<(String, Vec<u8>)>, items: &Vec<(String, Vec<u8>)>)
    ensures
        data_view(final(out)@) == data_view(old(out)@) + data_view(items@),
{
    let mut j: usize = 0;
    while j < items.len()
        invariant
            j <= items@.len(),
            data_view(out@) == data_view(old(out)@) + data_view(items@).take(j as int),
        decreases items@.len() - j,
    {
        let ghost before = out@;
        out.push((items[j].0.clone(), bytes_to_vec(items[j].1.as_slice())));
        assert(data_view(out@) =~= data_view(before).push(data_view(items@)[j as int]));
        j = j + 1;
        assert(data_view(items@).take(j as int) =~= data_view(items@).take(j - 1).push(data_view(items@)[j - 1]));
    }
    assert(data_view(items@).take(items@.len() as int) =~= data_view(items@));
}

/// Appends the import-table calls of `fs`, `d` bytes further on.
fn push_shifted_iat(out: &mut Vec<ExternFixup>, fs: &Vec<ExternFixup>, d: u64)
    requires
        forall|j: int| 0 <= j < fs@.len() ==> #[trigger] fs@[j].offset + d <= u64::MAX,
    ensures
        extern_fixups_view(final(out)@) == extern_fixups_view(old(out)@) + shifted(extern_fixups_view(fs@), d as int),
{
    let ghost want = shifted(extern_fixups_view(fs@), d as int);
    let mut j: usize = 0;
    while j < fs.len()
        invariant
            j <= fs@.len(),
            want == shifted(extern_fixups_view(fs@), d as int),
            forall|k: int| 0 <= k < fs@.len() ==> #[trigger] fs@[k].offset + d <= u64::MAX,
            extern_fixups_view(out@) == extern_fixups_view(old(out)@) + want.take(j as int),
        decreases fs@.len() - j,
    {
        let ghost before = out@;
        out.push(ExternFixup { offset: fs[j].offset + d, name: fs[j].name.clone() });
        assert(want[j as int] == (((fs@[j as int].offset + d) as u64), fs@[j as int].name@));
        assert(extern_fixups_view(out@) =~= extern_fixups_view(before).push(want[j as int]));
        j = j + 1;
        assert(want.take(j as int) =~= want.take(j - 1).push(want[j - 1]));
    }
    assert(want.take(fs@.len() as int) =~= want);
}

/// Appends the data references of `fs`, `d` bytes further on.
fn push_shifted_rip(out: &mut Vec<RipRelFixup>, fs: &Vec<RipRelFixup>, d: u64)
    requires
        forall|j: int| 0 <= j < fs@.len() ==> #[trigger] fs@[j].offset + d <= u64::MAX,
    ensures
        riprel_fixups_view(final(out)@) == riprel_fixups_view(old(out)@) + shifted(riprel_fixups_view(fs@), d as int),
{
    let ghost want = shifted(riprel_fixups_view(fs@), d as int);
    let mut j: usize = 0;
    while j < fs.len()
        invariant
            j <= fs@.len(),
            want == shifted(riprel_fixups_view(fs@), d as int),
            forall|k: int| 0 <= k < fs@.len() ==> #[trigger] fs@[k].offset + d <= u64::MAX,
            riprel_fixups_view(out@) == riprel_fixups_view(old(out)@) + want.take(j as int),
        decreases fs@.len() - j,
    {
        let ghost before = out@;
        out.push(RipRelFixup { offset: fs[j].offset + d, label: fs[j].label.clone() });
        assert(want[j as int] == (((fs@[j as int].offset + d) as u64), fs@[j as int].label@));
        assert(riprel_fixups_view(out@) =~= riprel_fixups_view(before).push(want[j as int]));
        j = j + 1;
        assert(want.take(j as int) =~= want.take(j - 1).push(want[j - 1]));
    }
    assert(want.take(fs@.len() as int) =~= want);
}

/// Relocations within `n` bytes, moved `d` bytes on, lie within `d + n`.
proof fn lemma_shifted_within(fs: Seq<(u64, Seq<char>)>, d: int, n: int)
    requires
        0 <= d,
        d + n <= u64::MAX,
        fixups_within(fs, n),
    ensures
        fixups_within(shifted(fs, d), d + n),
{
    assert forall|j: int| 0 <= j < shifted(fs, d).len() implies #[trigger] shifted(fs, d)[j].0 + 4 <= d + n by {
        assert(fs[j].0 + 4 <= n);
    }
}

/// Relocations within `n` bytes lie within any longer code.
proof fn lemma_within_more(fs: Seq<(u64, Seq<char>)>, n: int, m: int)
    requires
        n <= m,
        fixups_within(fs, n),
    ensures
        fixups_within(fs, m),
{
}

/// Encodes each module and joins them: the code one module after the
/// other, each module's relocations moved to where its code landed, the
/// data items of all modules in order, and each extern once, in order of
/// first use.
pub fn link_modules(modules: &[ModuleCode]) -> (r: (Vec<u8>, Vec<(String, Vec<u8>)>, Vec<String>, Vec<ExternFixup>,
    Vec<RipRelFixup>))
    requires
        forall|i: int| 0 <= i < modules@.len() ==> module_encodable(#[trigger] modules@[i]),
    ensures
        r.0@ == linked_code(modules@, modules@.len() as int),
        data_view(r.1@) == linked_data(modules@, modules@.len() as int),
        strs_view(r.2@) == linked_externs(modules@, modules@.len() as int),
        extern_fixups_view(r.3@) == linked_iat(modules@, modules@.len() as int),
        riprel_fixups_view(r.4@) == linked_rip(modules@, modules@.len() as int),
        fixups_within(extern_fixups_view(r.3@), r.0@.len() as int),
        fixups_within(riprel_fixups_view(r.4@), r.0@.len() as int),
{
    let ghost ms = modules@;
    let mut code: Vec<u8> = Vec::new();
    let mut data_items: Vec<(String, Vec<u8>)> = Vec::new();
    let mut externs: Vec<String> = Vec::new();
    let mut all_iat: Vec<ExternFixup> = Vec::new();
    let mut all_rip: Vec<RipRelFixup> = Vec::new();
    assert(data_view(data_items@) =~= Seq::<(Seq<char>, Seq<u8>)>::empty());
    assert(strs_view(externs@) =~= Seq::<Seq<char>>::empty());
    assert(extern_fixups_view(all_iat@) =~= Seq::<(u64, Seq<char>)>::empty());
    assert(riprel_fixups_view(all_rip@) =~= Seq::<(u64, Seq<char>)>::empty());
    let mut i: usize = 0;
    while i < modules.len()
        invariant
            i <= ms.len(),
            ms == modules@,
            forall|k: int| 0 <= k < ms.len() ==> module_encodable(#[trigger] ms[k]),
            code@ == linked_code(ms, i as int),
            data_view(data_items@) == linked_data(ms, i as int),
            strs_view(externs@) == linked_externs(ms, i as int),
            extern_fixups_view(all_iat@) == linked_iat(ms, i as int),
            riprel_fixups_view(all_rip@) == linked_rip(ms, i as int),
            fixups_within(extern_fixups_view(all_iat@), code@.len() as int),
            fixups_within(riprel_fixups_view(all_rip@), code@.len() as int),
        decreases ms.len() - i,
    {
        let m = &modules[i];
        assert(module_encodable(ms[i as int]));
        let ghost ex = strs_view(m.externs@);
        let ghost iv = instrs_view(m.instructions@);
        assert forall|k: int| 0 <= k < m.instructions@.len() implies encodable(#[trigger] m.instructions@[k]@) by {
            assert(module_encodable(ms[i as int]));
        }
        let (mut module_bytes, iat, rip) = encode(m.instructions.as_slice(), m.externs.as_slice());
        proof {
            lemma_encoded_within(ex, iv);
        }
        let code_offset = code.len() as u64;
        let ghost before = code@;
        code.append(&mut module_bytes);
        let ghost e = encoded(ex, iv);
        assert(module_code(ms[i as int]) == resolved(e.code, e.labels, e.fixups, e.fixups.len() as int));
        assert(code@.len() == before.len() + e.code.len());
        let new_len = code.len();
        assert(new_len <= u64::MAX);
        let ghost fi = iat_fixups(e.fixups, e.fixups.len() as int);
        let ghost fr = rip_fixups(e.fixups, e.labels, e.fixups.len() as int);
        assert forall|j: int| 0 <= j < iat@.len() implies #[trigger] iat@[j].offset + code_offset <= u64::MAX by {
            assert(extern_fixups_view(iat@)[j].0 == iat@[j].offset);
            assert(fi[j].0 + 4 <= e.code.len());
        }
        assert forall|j: int| 0 <= j < rip@.len() implies #[trigger] rip@[j].offset + code_offset <= u64::MAX by {
            assert(riprel_fixups_view(rip@)[j].0 == rip@[j].offset);
            assert(fr[j].0 + 4 <= e.code.len());
        }
        let ghost iat0 = extern_fixups_view(all_iat@);
        let ghost rip0 = riprel_fixups_view(all_rip@);
        push_shifted_iat(&mut all_iat, &iat, code_offset);
        push_shifted_rip(&mut all_rip, &rip, code_offset);
        proof {
            lemma_within_more(iat0, before.len() as int, code@.len() as int);
            lemma_within_more(rip0, before.len() as int, code@.len() as int);
            lemma_shifted_within(extern_fixups_view(iat@), code_offset as int, e.code.len() as int);
            lemma_shifted_within(riprel_fixups_view(rip@), code_offset as int, e.code.len() as int);
            let a = shifted(extern_fixups_view(iat@), code_offset as int);
            let b = shifted(riprel_fixups_view(rip@), code_offset as int);
            assert forall|j: int| 0 <= j < (iat0 + a).len() implies #[trigger] (iat0 + a)[j].0 + 4 <= code@.len() by {
                if j >= iat0.len() {
                    assert((iat0 + a)[j] == a[j - iat0.len()]);
                }
            }
            assert forall|j: int| 0 <= j < (rip0 + b).len() implies #[trigger] (rip0 + b)[j].0 + 4 <= code@.len() by {
                if j >= rip0.len() {
                    assert((rip0 + b)[j] == b[j - rip0.len()]);
                }
            }
        }
        push_data(&mut data_items, &m.data_items);
        merge_names(&mut externs, &m.externs);
        i = i + 1;
    }
    (code, data_items, externs, all_iat, all_rip)
}

// ---------------------------------------------------------------------------
// The image
// ---------------------------------------------------------------------------

/// Whether code of `n` bytes, the data items and the externs are small
/// enough for the image writer (see `pe_inputs_fit`).
pub fn image_inputs_fit(n: usize, data_items: &Vec<(String, Vec<u8>)>, externs: &Vec<String>) -> (r: bool)
    ensures
        r == pe_inputs_fit(n as int, data_view(data_items@), strs_view(externs@)),
{
    let ghost d = data_view(data_items@);
    let ghost ex = strs_view(externs@);
    if n as u64 > 0x100_0000_0000u64 || externs.len() as u64 > 0x1_0000_0000u64 {
        return false;
    }
    let mut total: u64 = 0;
    let mut i: usize = 0;
    while i < data_items.len()
        invariant
            i <= data_items@.len(),
            d == data_view(data_items@),
            total as int == data_len(d, i as int),
            total <= 0x100_0000_0000,
        decreases data_items@.len() - i,
    {
        proof {
            lemma_data_len_mono(d, i + 1, d.len() as int);
        }
        let len = data_items[i].1.len();
        assert(d[i as int].1.len() == len);
        if len as u64 > 0x100_0000_0000 - total {
            proof {
                lemma_data_len_mono(d, i + 1, d.len() as int);
            }
            return false;
        }
        total = total + len as u64;
        i = i + 1;
    }
    if total as u128 > usize::MAX as u128 {
        return false;
    }
    let mut hints: u64 = 0;
    let mut k: usize = 0;
    while k < externs.len()
        invariant
            k <= externs@.len(),
            ex == strs_view(externs@),
            hints as int == hint_size(ex, k as int),
            hints <= 0xFFFF_FFFF,
        decreases externs@.len() - k,
    {
        proof {
            lemma_hint_size_grows(ex, k + 1, ex.len() as int);
        }
        assert(ex[k as int] == externs@[k as int]@);
        let name_len = externs[k].as_str().as_bytes().len();
        assert(name_len as int == utf8_len(ex[k as int]));
        if name_len as u64 > 0xFFFF_FFFF || hints + 3 + name_len as u64 > 0xFFFF_FFFF {
            return false;
        }
        hints = hints + 3 + name_len as u64;
        k = k + 1;
    }
    true
}

/// Data lengths grow with the number of items counted.
proof fn lemma_data_len_mono(d: DataView, i: int, k: int)
    requires
        0 <= i <= k <= d.len(),
    ensures
        data_len(d, i) <= data_len(d, k),
        0 <= data_len(d, i),
    decreases k,
{
    if k > i {
        lemma_data_len_mono(d, i, k - 1);
    } else if i > 0 {
        lemma_data_len_mono(d, i - 1, i - 1);
    }
}

/// Hint sizes grow with the number of names counted.
proof fn lemma_hint_size_grows(fs: Seq<Seq<char>>, i: int, k: int)
    requires
        0 <= i <= k <= fs.len(),
    ensures
        hint_size(fs, i) <= hint_size(fs, k),
        0 <= hint_size(fs, i),
    decreases k,
{
    if k > i {
        lemma_hint_size_grows(fs, i, k - 1);
    } else if i > 0 {
        lemma_hint_size_grows(fs, i - 1, i - 1);
    }
}

/// The executable image of compiled modules: they are encoded and linked,
/// and the image is written if it is small enough for the image writer;
/// otherwise the error says so.
pub fn build_image(modules: &[ModuleCode]) -> (r: Result<Vec<u8>, String>)
    requires
        forall|i: int| 0 <= i < modules@.len() ==> module_encodable(#[trigger] modules@[i]),
    ensures
        ({
            let ms = modules@;
            let n = ms.len() as int;
            if pe_inputs_fit(linked_code(ms, n).len() as int, linked_data(ms, n), linked_externs(ms, n)) {
                r matches Ok(img) && img@ == pe_image(linked_code(ms, n), linked_data(ms, n), linked_externs(ms, n),
                    linked_iat(ms, n), linked_rip(ms, n))
            } else {
                r is Err
            }
        }),
{
    let (mut code, data_items, externs, iat, rip) = link_modules(modules);
    if !image_inputs_fit(code.len(), &data_items, &externs) {
        return Err(string_of("image too large for the PE32+ writer"));
    }
    assert(fixups_fit(code@.len() as int, data_view(data_items@), strs_view(externs@), extern_fixups_view(iat@),
        riprel_fixups_view(rip@)));
    build_pe(code.as_mut_slice(), data_items.as_slice(), externs.as_slice(), iat.as_slice(), rip.as_slice())
}

} // verus!
