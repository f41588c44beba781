//! A minimal PE32+ image: headers, a `.text` section with the code and an
//! `.rdata` section with the data, the import directory and the import
//! address table.

use vstd::prelude::*;
use vstd::utf8::encode_utf8;
use crate::codegen::{DataView, data_view, strs_view};
use crate::x64::{ExternFixup, RipRelFixup, extern_fixups_view, find_latest, label_offset, labels_view, lemma_label_offset_in,
    le32, le64, patch32,
    riprel_fixups_view};
use crate::text::string_of;

verus! {

// ---------------------------------------------------------------------------
// Arithmetic
// ---------------------------------------------------------------------------

/// `n` rounded up to a multiple of the power of two `a`, as the bit
/// formula computes it.
pub open spec fn align_up(n: u64, a: u64) -> u64 {
    ((n + a - 1) as u64) & !((a - 1) as u64)
}

/// How many bytes pad `n` to a multiple of `a`.
pub open spec fn pad_to(n: int, a: int) -> int {
    (a - n % a) % a
}

/// Rounds `n` up to a multiple of `a`, a power of two.
pub fn align_u64(n: u64, a: u64) -> (r: u64)
    requires
        a >= 1,
        n + a <= u64::MAX,
    ensures
        r == align_up(n, a),
{
    (n + a - 1) & !(a - 1)
}

/// The padding that brings `n` to a multiple of `a`.
pub fn pad_len(n: usize, a: usize) -> (r: usize)
    requires
        a > 0,
    ensures
        r as int == pad_to(n as int, a as int),
{
    (a - (n % a)) % a
}

/// Law: for the two alignments of the image (file and section), rounding
/// up gives the least multiple of the alignment that is not below `n`.
pub proof fn lemma_align_up(n: u64, a: u64)
    requires
        a == 0x200 || a == 0x1000,
        n <= 0x1_0000_0000_0000,
    ensures
        align_up(n, a) % a == 0,
        n <= align_up(n, a) < n + a,
{
    if a == 0x200 {
        assert(((n + 0x1ff) as u64) & !(0x1ffu64) == ((n + 0x1ff) as u64) - ((n + 0x1ff) as u64) % 0x200
            && (((n + 0x1ff) as u64) & !(0x1ffu64)) % 0x200 == 0) by (bit_vector)
            requires n <= 0x1_0000_0000_0000u64;
    } else {
        assert(((n + 0xfff) as u64) & !(0xfffu64) == ((n + 0xfff) as u64) - ((n + 0xfff) as u64) % 0x1000
            && (((n + 0xfff) as u64) & !(0xfffu64)) % 0x1000 == 0) by (bit_vector)
            requires n <= 0x1_0000_0000_0000u64;
    }
}

/// Law: the padding brings `n` to a multiple of `a`, and is less than `a`.
pub proof fn lemma_pad_to(n: int, a: int)
    requires
        n >= 0,
        a > 0,
    ensures
        0 <= pad_to(n, a) < a,
        (n + pad_to(n, a)) % a == 0,
{
    let r = n % a;
    if r == 0 {
        assert(pad_to(n, a) == 0) by {
            vstd::arithmetic::div_mod::lemma_mod_self_0(a);
        }
    } else {
        assert((a - r) % a == a - r) by {
            vstd::arithmetic::div_mod::lemma_small_mod((a - r) as nat, a as nat);
        }
        assert((n + (a - r)) % a == 0) by {
            vstd::arithmetic::div_mod::lemma_fundamental_div_mod(n, a);
            vstd::arithmetic::div_mod::lemma_mod_multiples_basic(n / a + 1, a);
            assert(n + (a - r) == (n / a + 1) * a) by (nonlinear_arith)
                requires n == a * (n / a) + r;
        }
    }
}

// ---------------------------------------------------------------------------
// Imports
// ---------------------------------------------------------------------------

/// The one extern that comes from `kernel32.dll`.
pub open spec fn exit_process_name() -> Seq<char> {
    "ExitProcess"@
}

/// The externs among the first `k` that are `ExitProcess` (`exit`) or are
/// not, in order.
pub open spec fn pick_externs(ex: Seq<Seq<char>>, exit: bool, k: int) -> Seq<Seq<char>>
    decreases k,
{
    if k <= 0 || k > ex.len() {
        Seq::empty()
    } else if (ex[k - 1] == exit_process_name()) == exit {
        pick_externs(ex, exit, k - 1).push(ex[k - 1])
    } else {
        pick_externs(ex, exit, k - 1)
    }
}

/// The DLLs the image imports from, each with its functions in order:
/// `kernel32.dll` for `ExitProcess`, `msvcrt.dll` for the rest; a DLL with
/// no function is left out.
pub open spec fn dll_imports(ex: Seq<Seq<char>>) -> Seq<(Seq<char>, Seq<Seq<char>>)> {
    let k = pick_externs(ex, true, ex.len() as int);
    let m = pick_externs(ex, false, ex.len() as int);
    (if k.len() > 0 { seq![("kernel32.dll"@, k)] } else { Seq::empty() })
        + (if m.len() > 0 { seq![("msvcrt.dll"@, m)] } else { Seq::empty() })
}

/// The length of a name in UTF-8.
pub open spec fn utf8_len(s: Seq<char>) -> int {
    encode_utf8(s).len() as int
}

/// The bytes of the first `k` hint/name entries: a zero hint, the name and
/// a terminating zero each.
pub open spec fn hint_size(fs: Seq<Seq<char>>, k: int) -> int
    decreases k,
{
    if k <= 0 || k > fs.len() { 0 } else { hint_size(fs, k - 1) + 2 + utf8_len(fs[k - 1]) + 1 }
}

/// The functions of the first `k` DLLs, in order.
pub open spec fn flat_funcs(dl: Seq<(Seq<char>, Seq<Seq<char>>)>, k: int) -> Seq<Seq<char>>
    decreases k,
{
    if k <= 0 || k > dl.len() { Seq::empty() } else { flat_funcs(dl, k - 1) + dl[k - 1].1 }
}

/// The import table slots taken by the first `k` DLLs: one per function
/// and one terminating slot each.
pub open spec fn slots_before(dl: Seq<(Seq<char>, Seq<Seq<char>>)>, k: int) -> int
    decreases k,
{
    if k <= 0 || k > dl.len() { 0 } else { slots_before(dl, k - 1) + dl[k - 1].1.len() + 1 }
}

/// The bytes of the first `k` DLL names, each with a terminating zero.
pub open spec fn names_size(dl: Seq<(Seq<char>, Seq<Seq<char>>)>, k: int) -> int
    decreases k,
{
    if k <= 0 || k > dl.len() { 0 } else { names_size(dl, k - 1) + utf8_len(dl[k - 1].0) + 1 }
}

/// The import table slot of each function of the first `k` DLLs, in the
/// order they are assigned (a later assignment of a name wins).
pub open spec fn slot_entries(dl: Seq<(Seq<char>, Seq<Seq<char>>)>, k: int) -> Seq<(Seq<char>, u64)>
    decreases k,
{
    if k <= 0 || k > dl.len() {
        Seq::empty()
    } else {
        slot_entries(dl, k - 1) + Seq::new(dl[k - 1].1.len(),
            |j: int| (dl[k - 1].1[j], (slots_before(dl, k - 1) + j) as u64))
    }
}

/// The total size of the first `k` data items.
pub open spec fn data_len(d: DataView, k: int) -> int
    decreases k,
{
    if k <= 0 || k > d.len() { 0 } else { data_len(d, k - 1) + d[k - 1].1.len() }
}

/// The address of each of the first `k` data items, `rdata_va` being the
/// address of the first (a later item of a name wins).
pub open spec fn data_rvas(d: DataView, rdata_va: int, k: int) -> Seq<(Seq<char>, u64)>
    decreases k,
{
    if k <= 0 || k > d.len() {
        Seq::empty()
    } else {
        data_rvas(d, rdata_va, k - 1).push((d[k - 1].0, (rdata_va + data_len(d, k - 1)) as u64))
    }
}

// ---------------------------------------------------------------------------
// Layout
// ---------------------------------------------------------------------------

/// Where everything of an image goes.
pub struct PeLayout {
    /// Offsets within `.rdata`.
    pub data_len: int,
    pub import_start: int,
    pub desc_size: int,
    pub hint_name_start: int,
    pub dll_name_start: int,
    pub iat_start: int,
    pub rdata_raw_size: int,
    /// Sizes and addresses of the sections.
    pub code_len: int,
    pub text_vsize: int,
    pub rdata_va: int,
    pub rdata_file_size: int,
    pub rdata_virt_size: int,
    pub image_size: int,
    pub rdata_raw_off: int,
    pub iat_va: int,
}

/// The layout of an image for code of `n` bytes, the data items and the
/// DLL imports.
pub open spec fn pe_layout(n: int, d: DataView, dl: Seq<(Seq<char>, Seq<Seq<char>>)>) -> PeLayout {
    let data = data_len(d, d.len() as int);
    let import_start = data + pad_to(data, 16);
    let desc_size = ((dl.len() + 1) * 20) as int;
    let funcs = flat_funcs(dl, dl.len() as int);
    let hint_name_start = import_start + desc_size;
    let dll_name_start = hint_name_start + hint_size(funcs, funcs.len() as int);
    let iat_start = dll_name_start + names_size(dl, dl.len() as int);
    let iat_size = ((funcs.len() + dl.len()) * 8) as int;
    let raw = iat_start + iat_size;
    let rdata_va = 0x1000 + align_up(n as u64, 0x1000) as int;
    let rdata_virt_size = align_up(raw as u64, 0x1000);
    let code_len = align_up(n as u64, 0x200);
    PeLayout {
        data_len: data,
        import_start,
        desc_size,
        hint_name_start,
        dll_name_start,
        iat_start,
        rdata_raw_size: raw,
        code_len: code_len as int,
        text_vsize: align_up(n as u64, 0x1000) as int,
        rdata_va,
        rdata_file_size: align_up(raw as u64, 0x200) as int,
        rdata_virt_size: rdata_virt_size as int,
        image_size: align_up((rdata_va + rdata_virt_size) as u64, 0x1000) as int,
        rdata_raw_off: 0x200 + code_len,
        iat_va: rdata_va + iat_start,
    }
}

// ---------------------------------------------------------------------------
// Patching the code
// ---------------------------------------------------------------------------

/// The 32-bit displacement from the end of a field at `off` in `.text`
/// (at `text_va`) to the address `target`.
pub open spec fn rip_disp(target: int, text_va: int, off: u64) -> u32 {
    ((target - (text_va + off + 4)) as i32) as u32
}

/// `code` with the first `k` import-table calls pointed at their slots.
pub open spec fn patch_iat(code: Seq<u8>, slots: Seq<(Seq<char>, u64)>, text_va: int, iat_va: int,
    fs: Seq<(u64, Seq<char>)>, k: int) -> Seq<u8>
    decreases k,
{
    if k <= 0 || k > fs.len() {
        code
    } else {
        let prev = patch_iat(code, slots, text_va, iat_va, fs, k - 1);
        match crate::x64::label_offset(slots, fs[k - 1].1) {
            Some(idx) => patch32(prev, fs[k - 1].0 as int, rip_disp(iat_va + idx * 8, text_va, fs[k - 1].0)),
            None => prev,
        }
    }
}

/// `code` with the first `k` data references pointed at their items.
pub open spec fn patch_rip(code: Seq<u8>, rvas: Seq<(Seq<char>, u64)>, text_va: int, fs: Seq<(u64, Seq<char>)>,
    k: int) -> Seq<u8>
    decreases k,
{
    if k <= 0 || k > fs.len() {
        code
    } else {
        let prev = patch_rip(code, rvas, text_va, fs, k - 1);
        match crate::x64::label_offset(rvas, fs[k - 1].1) {
            Some(t) => patch32(prev, fs[k - 1].0 as int, rip_disp(t as int, text_va, fs[k - 1].0)),
            None => prev,
        }
    }
}

/// The code as it goes into the image: extern calls first, then data
/// references patched.
pub open spec fn patched_code(code: Seq<u8>, d: DataView, dl: Seq<(Seq<char>, Seq<Seq<char>>)>,
    iat: Seq<(u64, Seq<char>)>, rip: Seq<(u64, Seq<char>)>) -> Seq<u8> {
    let l = pe_layout(code.len() as int, d, dl);
    let c1 = patch_iat(code, slot_entries(dl, dl.len() as int), 0x1000, l.iat_va, iat, iat.len() as int);
    patch_rip(c1, data_rvas(d, l.rdata_va, d.len() as int), 0x1000, rip, rip.len() as int)
}

// ---------------------------------------------------------------------------
// The image
// ---------------------------------------------------------------------------

/// `n` zero bytes.
pub open spec fn zeros(n: int) -> Seq<u8> {
    Seq::new(n as nat, |i: int| 0u8)
}

/// The little-endian bytes of a 16-bit value.
pub open spec fn le16(v: u16) -> Seq<u8> {
    seq![(v & 0xff) as u8, ((v >> 8) & 0xff) as u8]
}

/// The DOS header: `MZ`, and at 0x3C the offset (0x80) of the PE
/// signature; zeros up to it.
pub open spec fn dos_header() -> Seq<u8> {
    seq![0x4Du8, 0x5Au8, 0x90u8, 0u8, 3u8, 0u8, 0u8, 0u8, 4u8, 0u8, 0u8, 0u8, 0xFFu8, 0xFFu8, 0u8, 0u8]
        + zeros(0x3C - 16) + le32(0x80) + zeros(0x40)
}

/// The PE signature.
pub open spec fn pe_signature() -> Seq<u8> {
    seq![0x50u8, 0x45u8, 0u8, 0u8]
}

/// The COFF header: AMD64, two sections, a 240-byte optional header, an
/// executable with large addresses.
pub open spec fn coff_header() -> Seq<u8> {
    le16(0x8664) + le16(2) + le32(0) + le32(0) + le32(0) + le16(240) + le16(0x22E)
}

/// The PE32+ optional header: a console program based at 0x140000000,
/// entered at the start of `.text`, with one import directory.
pub open spec fn optional_header(l: PeLayout) -> Seq<u8> {
    le16(0x020B) + seq![0x10u8, 0u8] + le32(l.code_len as u32) + le32(l.rdata_file_size as u32) + le32(0)
        + le32(0x1000) + le32(0x1000) + le64(0x140000000) + le32(0x1000) + le32(0x200)
        + le16(6) + le16(0) + le16(0) + le16(0) + le16(6) + le16(0) + le32(0)
        + le32(l.image_size as u32) + le32(0x200) + le32(0) + le16(3) + le16(0x8140)
        + le64(0x100000) + le64(0x1000) + le64(0x100000) + le64(0x1000) + le32(0) + le32(16)
        + le64(0) + le32((l.rdata_va + l.import_start) as u32) + le32(l.desc_size as u32) + zeros(112)
}

/// A section header.
pub open spec fn section_header(name: Seq<u8>, vsize: u32, va: u32, rsize: u32, roff: u32, chars: u32) -> Seq<u8> {
    name + le32(vsize) + le32(va) + le32(rsize) + le32(roff) + le32(0) + le32(0) + le16(0) + le16(0) + le32(chars)
}

/// The `.text` section header: code, executable, readable.
pub open spec fn text_section(l: PeLayout) -> Seq<u8> {
    section_header(seq![0x2Eu8, 0x74u8, 0x65u8, 0x78u8, 0x74u8, 0u8, 0u8, 0u8], l.text_vsize as u32, 0x1000,
        l.code_len as u32, 0x200, 0x60000020)
}

/// The `.rdata` section header: initialized, readable.
pub open spec fn rdata_section(l: PeLayout) -> Seq<u8> {
    section_header(seq![0x2Eu8, 0x72u8, 0x64u8, 0x61u8, 0x74u8, 0x61u8, 0u8, 0u8], l.rdata_virt_size as u32,
        l.rdata_va as u32, l.rdata_file_size as u32, l.rdata_raw_off as u32, 0x40000040)
}

/// All headers, padded to 0x200 bytes.
pub open spec fn headers(l: PeLayout) -> Seq<u8> {
    let h = dos_header() + pe_signature() + coff_header() + optional_header(l) + text_section(l) + rdata_section(l);
    h + zeros(0x200 - h.len() as int)
}

/// The contents of the first `k` data items.
pub open spec fn data_bytes(d: DataView, k: int) -> Seq<u8>
    decreases k,
{
    if k <= 0 || k > d.len() { Seq::empty() } else { data_bytes(d, k - 1) + d[k - 1].1 }
}

/// The import descriptors of the first `k` DLLs: the address of its slots
/// (as lookup and as address table), and of its name.
pub open spec fn descriptors(dl: Seq<(Seq<char>, Seq<Seq<char>>)>, l: PeLayout, k: int) -> Seq<u8>
    decreases k,
{
    if k <= 0 || k > dl.len() {
        Seq::empty()
    } else {
        let ilt: int = l.iat_va + slots_before(dl, k - 1) * 8;
        let name_va: int = l.rdata_va + l.dll_name_start + names_size(dl, k - 1);
        descriptors(dl, l, k - 1) + le32(ilt as u32) + le32(0) + le32(0) + le32(name_va as u32) + le32(ilt as u32)
    }
}

/// The first `k` hint/name entries.
pub open spec fn hint_entries(fs: Seq<Seq<char>>, k: int) -> Seq<u8>
    decreases k,
{
    if k <= 0 || k > fs.len() { Seq::empty() } else { hint_entries(fs, k - 1) + le16(0) + encode_utf8(fs[k - 1]) + seq![0u8] }
}

/// The first `k` DLL names, zero-terminated.
pub open spec fn dll_names(dl: Seq<(Seq<char>, Seq<Seq<char>>)>, k: int) -> Seq<u8>
    decreases k,
{
    if k <= 0 || k > dl.len() { Seq::empty() } else { dll_names(dl, k - 1) + encode_utf8(dl[k - 1].0) + seq![0u8] }
}

/// The first `k` slots of a DLL whose first hint/name entry is at `base`.
pub open spec fn thunks(fs: Seq<Seq<char>>, base: int, k: int) -> Seq<u8>
    decreases k,
{
    if k <= 0 || k > fs.len() { Seq::empty() } else { thunks(fs, base, k - 1) + le64((base + hint_size(fs, k - 1)) as u64) }
}

/// The import address table of the first `k` DLLs: each function's slot
/// holds the address of its hint/name entry; a zero slot ends each DLL.
pub open spec fn iat_entries(dl: Seq<(Seq<char>, Seq<Seq<char>>)>, l: PeLayout, k: int) -> Seq<u8>
    decreases k,
{
    if k <= 0 || k > dl.len() {
        Seq::empty()
    } else {
        let before = flat_funcs(dl, k - 1);
        let base = l.rdata_va + l.hint_name_start + hint_size(before, before.len() as int);
        iat_entries(dl, l, k - 1) + thunks(dl[k - 1].1, base, dl[k - 1].1.len() as int) + le64(0)
    }
}

/// The `.rdata` section: data, padding to 16, import descriptors, hint/name
/// entries, DLL names, the import address table, padding to 0x200.
pub open spec fn rdata_bytes(d: DataView, dl: Seq<(Seq<char>, Seq<Seq<char>>)>, l: PeLayout) -> Seq<u8> {
    let funcs = flat_funcs(dl, dl.len() as int);
    data_bytes(d, d.len() as int) + zeros(l.import_start - l.data_len) + descriptors(dl, l, dl.len() as int)
        + zeros(20) + hint_entries(funcs, funcs.len() as int) + dll_names(dl, dl.len() as int)
        + iat_entries(dl, l, dl.len() as int) + zeros(l.rdata_file_size - l.rdata_raw_size)
}

/// The image for `code`, data items, externs and the relocations left by
/// the encoder.
pub open spec fn pe_image(code: Seq<u8>, d: DataView, ex: Seq<Seq<char>>, iat: Seq<(u64, Seq<char>)>,
    rip: Seq<(u64, Seq<char>)>) -> Seq<u8> {
    let dl = dll_imports(ex);
    let l = pe_layout(code.len() as int, d, dl);
    headers(l) + patched_code(code, d, dl, iat, rip) + zeros(l.code_len - code.len()) + rdata_bytes(d, dl, l)
}

// ---------------------------------------------------------------------------
// Writing bytes
// ---------------------------------------------------------------------------

fn put8(out: &mut Vec<u8>, b: u8)
    ensures
        final(out)@ == old(out)@ + seq![b],
{
    out.push(b);
    assert(out@ =~= old(out)@ + seq![b]);
}

fn put16(out: &mut Vec<u8>, v: u16)
    ensures
        final(out)@ == old(out)@ + le16(v),
{
    out.push((v & 0xff) as u8);
    out.push(((v >> 8) & 0xff) as u8);
    assert(out@ =~= old(out)@ + le16(v));
}

fn put32(out: &mut Vec<u8>, v: u32)
    ensures
        final(out)@ == old(out)@ + le32(v),
{
    out.push((v & 0xff) as u8);
    out.push(((v >> 8) & 0xff) as u8);
    out.push(((v >> 16) & 0xff) as u8);
    out.push(((v >> 24) & 0xff) as u8);
    assert(out@ =~= old(out)@ + le32(v));
}

fn put64(out: &mut Vec<u8>, v: u64)
    ensures
        final(out)@ == old(out)@ + le64(v),
{
    out.push((v & 0xff) as u8);
    out.push(((v >> 8) & 0xff) as u8);
    out.push(((v >> 16) & 0xff) as u8);
    out.push(((v >> 24) & 0xff) as u8);
    out.push(((v >> 32) & 0xff) as u8);
    out.push(((v >> 40) & 0xff) as u8);
    out.push(((v >> 48) & 0xff) as u8);
    out.push(((v >> 56) & 0xff) as u8);
    assert(out@ =~= old(out)@ + le64(v));
}

fn put_zeros(out: &mut Vec<u8>, n: u64)
    ensures
        final(out)@ == old(out)@ + zeros(n as int),
{
    let mut i: u64 = 0;
    while i < n
        invariant
            i <= n,
            out@ == old(out)@ + zeros(i as int),
        decreases n - i,
    {
        out.push(0);
        i = i + 1;
        assert(out@ =~= old(out)@ + zeros(i as int));
    }
}

fn put_bytes(out: &mut Vec<u8>, b: &[u8])
    ensures
        final(out)@ == old(out)@ + b@,
{
    let mut i: usize = 0;
    while i < b.len()
        invariant
            i <= b@.len(),
            out@ == old(out)@ + b@.take(i as int),
        decreases b@.len() - i,
    {
        out.push(b[i]);
        i = i + 1;
        assert(out@ =~= old(out)@ + b@.take(i as int));
    }
    assert(b@.take(i as int) =~= b@);
}

/// Writes `v`, little-endian, over the four bytes at `start`.
fn patch_field(code: &mut [u8], start: usize, v: u32)
    requires
        start + 4 <= old(code)@.len(),
    ensures
        final(code)@ == patch32(old(code)@, start as int, v),
{
    code[start] = (v & 0xff) as u8;
    code[start + 1] = ((v >> 8) & 0xff) as u8;
    code[start + 2] = ((v >> 16) & 0xff) as u8;
    code[start + 3] = ((v >> 24) & 0xff) as u8;
    assert(code@ =~= patch32(old(code)@, start as int, v));
}

// ---------------------------------------------------------------------------
// Imports
// ---------------------------------------------------------------------------

/// The views of DLL imports.
pub open spec fn dlls_view(v: Seq<(String, Vec<String>)>) -> Seq<(Seq<char>, Seq<Seq<char>>)> {
    v.map_values(|e: (String, Vec<String>)| (e.0@, strs_view(e.1@)))
}

/// Groups externs by DLL.
fn group_imports(externs: &[String]) -> (r: Vec<(String, Vec<String>)>)
    ensures
        dlls_view(r@) == dll_imports(strs_view(externs@)),
{
    let ghost ex = strs_view(externs@);
    let exit = string_of("ExitProcess");
    let mut kernel32: Vec<String> = Vec::new();
    let mut msvcrt: Vec<String> = Vec::new();
    let mut i: usize = 0;
    while i < externs.len()
        invariant
            i <= externs@.len(),
            ex == strs_view(externs@),
            exit@ == exit_process_name(),
            strs_view(kernel32@) == pick_externs(ex, true, i as int),
            strs_view(msvcrt@) == pick_externs(ex, false, i as int),
        decreases externs@.len() - i,
    {
        assert(ex[i as int] == externs@[i as int]@);
        if externs[i] == exit {
            let ghost before = kernel32@;
            kernel32.push(externs[i].clone());
            assert(strs_view(kernel32@) =~= strs_view(before).push(ex[i as int]));
        } else {
            let ghost before = msvcrt@;
            msvcrt.push(externs[i].clone());
            assert(strs_view(msvcrt@) =~= strs_view(before).push(ex[i as int]));
        }
        i = i + 1;
    }
    let mut dlls: Vec<(String, Vec<String>)> = Vec::new();
    let k_nonempty = kernel32.len() > 0;
    let m_nonempty = msvcrt.len() > 0;
    if k_nonempty {
        dlls.push((string_of("kernel32.dll"), kernel32));
    }
    let ghost mid = dlls@;
    if m_nonempty {
        dlls.push((string_of("msvcrt.dll"), msvcrt));
    }
    assert(dlls_view(dlls@) =~= dll_imports(ex));
    dlls
}

/// The import table slot of every function, in order of assignment.
fn slot_table(dlls: &Vec<(String, Vec<String>)>) -> (r: Vec<(String, u64)>)
    requires
        slots_before(dlls_view(dlls@), dlls@.len() as int) <= 0x2_0000_0000,
    ensures
        labels_view(r@) == slot_entries(dlls_view(dlls@), dlls@.len() as int),
{
    let ghost dl = dlls_view(dlls@);
    let mut r: Vec<(String, u64)> = Vec::new();
    let mut index: u64 = 0;
    let mut i: usize = 0;
    while i < dlls.len()
        invariant
            i <= dlls@.len(),
            dl == dlls_view(dlls@),
            slots_before(dl, dl.len() as int) <= 0x2_0000_0000,
            index as int == slots_before(dl, i as int),
            labels_view(r@) == slot_entries(dl, i as int),
        decreases dlls@.len() - i,
    {
        proof {
            lemma_slots_before_mono(dl, (i + 1) as int, dl.len() as int);
        }
        let funcs = &dlls[i].1;
        let ghost base = labels_view(r@);
        let mut j: usize = 0;
        while j < funcs.len()
            invariant
                i < dlls@.len(),
                dl == dlls_view(dlls@),
                *funcs == dlls@[i as int].1,
                j <= funcs@.len(),
                slots_before(dl, i + 1) <= 0x2_0000_0000,
                index as int == slots_before(dl, i as int) + j,
                labels_view(r@) == base + Seq::new(j as nat,
                    |k: int| (dl[i as int].1[k], (slots_before(dl, i as int) + k) as u64)),
            decreases funcs@.len() - j,
        {
            assert(dl[i as int].1[j as int] == funcs@[j as int]@);
            let ghost before = r@;
            let name = funcs[j].clone();
            r.push((name, index));
            assert(labels_view(r@) =~= labels_view(before).push((funcs@[j as int]@, index)));
            index = index + 1;
            j = j + 1;
            assert(labels_view(r@) =~= base + Seq::new(j as nat,
                |k: int| (dl[i as int].1[k], (slots_before(dl, i as int) + k) as u64)));
        }
        // Skip the terminating slot.
        index = index + 1;
        i = i + 1;
    }
    r
}

proof fn lemma_slots_before_mono(dl: Seq<(Seq<char>, Seq<Seq<char>>)>, j: int, k: int)
    requires
        0 <= j <= k <= dl.len(),
    ensures
        slots_before(dl, j) <= slots_before(dl, k),
    decreases k - j,
{
    if j < k {
        lemma_slots_before_mono(dl, j, k - 1);
    }
}

/// The address of every data item, in order.
fn data_label_rvas(data_items: &[(String, Vec<u8>)], rdata_va: u64) -> (r: Vec<(String, u64)>)
    requires
        rdata_va + data_len(data_view(data_items@), data_items@.len() as int) <= u64::MAX,
    ensures
        labels_view(r@) == data_rvas(data_view(data_items@), rdata_va as int, data_items@.len() as int),
{
    let ghost d = data_view(data_items@);
    let mut r: Vec<(String, u64)> = Vec::new();
    let mut offset: u64 = 0;
    let mut i: usize = 0;
    while i < data_items.len()
        invariant
            i <= data_items@.len(),
            d == data_view(data_items@),
            rdata_va + data_len(d, d.len() as int) <= u64::MAX,
            offset as int == data_len(d, i as int),
            labels_view(r@) == data_rvas(d, rdata_va as int, i as int),
        decreases data_items@.len() - i,
    {
        proof {
            lemma_data_len_mono(d, (i + 1) as int, d.len() as int);
        }
        let ghost before = r@;
        r.push((data_items[i].0.clone(), rdata_va + offset));
        assert(labels_view(r@) =~= labels_view(before).push((d[i as int].0, (rdata_va + data_len(d, i as int)) as u64)));
        offset = offset + data_items[i].1.len() as u64;
        i = i + 1;
    }
    r
}

proof fn lemma_data_len_mono(d: DataView, j: int, k: int)
    requires
        0 <= j <= k <= d.len(),
    ensures
        data_len(d, j) <= data_len(d, k),
    decreases k - j,
{
    if j < k {
        lemma_data_len_mono(d, j, k - 1);
    }
}

/// Every assigned slot lies below the slots the DLLs take.
proof fn lemma_slot_entries_bound(dl: Seq<(Seq<char>, Seq<Seq<char>>)>, k: int)
    requires
        0 <= k <= dl.len(),
    ensures
        forall|j: int| 0 <= j < slot_entries(dl, k).len() ==> #[trigger] slot_entries(dl, k)[j].1 < slots_before(dl, k)
            || slots_before(dl, k) > u64::MAX,
    decreases k,
{
    if k > 0 {
        lemma_slot_entries_bound(dl, k - 1);
        lemma_slots_before_mono(dl, k - 1, k);
        lemma_slots_before_mono(dl, 0, k - 1);
        let p = slot_entries(dl, k - 1);
        let q = slot_entries(dl, k);
        assert forall|j: int| 0 <= j < q.len() implies #[trigger] q[j].1 < slots_before(dl, k)
            || slots_before(dl, k) > u64::MAX by {
            if j < p.len() {
                assert(q[j] == p[j]);
            } else {
                let jj = j - p.len();
                assert(q[j] == (dl[k - 1].1[jj], (slots_before(dl, k - 1) + jj) as u64));
            }
        }
    }
}

/// Every data item's address lies at most the data's size past the first.
proof fn lemma_data_rvas_bound(d: DataView, rdata_va: int, k: int)
    requires
        0 <= k <= d.len(),
        0 <= rdata_va,
        rdata_va + data_len(d, k) <= u64::MAX,
    ensures
        forall|j: int| 0 <= j < data_rvas(d, rdata_va, k).len()
            ==> #[trigger] data_rvas(d, rdata_va, k)[j].1 <= rdata_va + data_len(d, k),
    decreases k,
{
    if k > 0 {
        lemma_data_len_mono(d, k - 1, k);
        lemma_data_len_mono(d, 0, k - 1);
        lemma_data_rvas_bound(d, rdata_va, k - 1);
        let p = data_rvas(d, rdata_va, k - 1);
        let q = data_rvas(d, rdata_va, k);
        assert forall|j: int| 0 <= j < q.len() implies #[trigger] q[j].1 <= rdata_va + data_len(d, k) by {
            if j < p.len() {
                assert(q[j] == p[j]);
            } else {
                assert(q[j] == (d[k - 1].0, (rdata_va + data_len(d, k - 1)) as u64));
            }
        }
    }
}

/// Writes a PE32+ image for a set of externs.
struct PeWriter<'a> {
    externs: &'a [String],
}

impl<'a> PeWriter<'a> {
    /// Points each `call [rip + disp32]` through the import table at its
    /// extern's slot; fixups whose name has no slot are left alone.
    fn patch_iat_fixups(&self, code: &mut [u8], _base_va: u64, text_va: u64, iat_va: u64,
        dll_imports: &Vec<(String, Vec<String>)>, iat_fixups: &[ExternFixup])
        requires
            slots_before(dlls_view(dll_imports@), dll_imports@.len() as int) <= 0x2_0000_0000,
            text_va <= 0x1_0000_0000_0000,
            iat_va <= 0x1_0000_0000_0000,
            old(code)@.len() <= 0x1_0000_0000_0000,
            forall|j: int| 0 <= j < iat_fixups@.len() && label_offset(slot_entries(dlls_view(dll_imports@),
                dll_imports@.len() as int), #[trigger] iat_fixups@[j].name@) is Some
                ==> iat_fixups@[j].offset + 4 <= old(code)@.len(),
        ensures
            final(code)@ == patch_iat(old(code)@, slot_entries(dlls_view(dll_imports@), dll_imports@.len() as int),
                text_va as int, iat_va as int, extern_fixups_view(iat_fixups@), iat_fixups@.len() as int),
            final(code)@.len() == old(code)@.len(),
    {
        let ghost dl = dlls_view(dll_imports@);
        let ghost slots = slot_entries(dl, dl.len() as int);
        let ghost fv = extern_fixups_view(iat_fixups@);
        let extern_to_index = slot_table(dll_imports);
        proof {
            lemma_slot_entries_bound(dl, dl.len() as int);
        }
        let mut i: usize = 0;
        while i < iat_fixups.len()
            invariant
                i <= iat_fixups@.len(),
                slots == labels_view(extern_to_index@),
                fv == extern_fixups_view(iat_fixups@),
                slots_before(dl, dl.len() as int) <= 0x2_0000_0000,
                forall|j: int| 0 <= j < slots.len() ==> #[trigger] slots[j].1 < slots_before(dl, dl.len() as int)
                    || slots_before(dl, dl.len() as int) > u64::MAX,
                text_va <= 0x1_0000_0000_0000,
                iat_va <= 0x1_0000_0000_0000,
                code@.len() == old(code)@.len(),
                old(code)@.len() <= 0x1_0000_0000_0000,
                forall|j: int| 0 <= j < iat_fixups@.len() && label_offset(slots, #[trigger] iat_fixups@[j].name@) is Some
                    ==> iat_fixups@[j].offset + 4 <= old(code)@.len(),
                code@ == patch_iat(old(code)@, slots, text_va as int, iat_va as int, fv, i as int),
            decreases iat_fixups@.len() - i,
        {
            let fixup = &iat_fixups[i];
            assert(fv[i as int] == (fixup.offset, fixup.name@));
            let found = find_latest(&extern_to_index, &fixup.name);
            if let Some(iat_index) = found {
                proof {
                    lemma_label_offset_in(slots, fixup.name@);
                    let j = choose|j: int| 0 <= j < slots.len() && #[trigger] slots[j].1 == label_offset(slots,
                        fixup.name@)->0;
                    assert(slots[j].1 < slots_before(dl, dl.len() as int));
                }
                let iat_entry_rva = iat_va + iat_index * 8;
                let fixup_rip = text_va + fixup.offset + 4;
                let disp = (iat_entry_rva as i64 - fixup_rip as i64) as i32;
                let n = code.len();
                assert(fixup.offset + 4 <= n);
                let start = fixup.offset as usize;
                assert(disp as u32 == rip_disp(iat_va + iat_index * 8, text_va as int, fixup.offset));
                patch_field(code, start, disp as u32);
            }
            i = i + 1;
        }
    }

    /// Points each RIP-relative data reference at its data item; fixups
    /// whose label is no data item are left alone.
    fn patch_rip_fixups(&self, code: &mut [u8], text_va: u64, label_rvas: &Vec<(String, u64)>,
        rip_fixups: &[RipRelFixup])
        requires
            forall|j: int| 0 <= j < label_rvas@.len() ==> #[trigger] label_rvas@[j].1 <= 0x1_0000_0000_0000,
            text_va <= 0x1_0000_0000_0000,
            old(code)@.len() <= 0x1_0000_0000_0000,
            forall|j: int| 0 <= j < rip_fixups@.len() && label_offset(labels_view(label_rvas@),
                #[trigger] rip_fixups@[j].label@) is Some ==> rip_fixups@[j].offset + 4 <= old(code)@.len(),
        ensures
            final(code)@ == patch_rip(old(code)@, labels_view(label_rvas@), text_va as int,
                riprel_fixups_view(rip_fixups@), rip_fixups@.len() as int),
            final(code)@.len() == old(code)@.len(),
    {
        let ghost rv = labels_view(label_rvas@);
        let ghost fv = riprel_fixups_view(rip_fixups@);
        let mut i: usize = 0;
        while i < rip_fixups.len()
            invariant
                i <= rip_fixups@.len(),
                rv == labels_view(label_rvas@),
                fv == riprel_fixups_view(rip_fixups@),
                forall|j: int| 0 <= j < label_rvas@.len() ==> #[trigger] label_rvas@[j].1 <= 0x1_0000_0000_0000,
                text_va <= 0x1_0000_0000_0000,
                code@.len() == old(code)@.len(),
                old(code)@.len() <= 0x1_0000_0000_0000,
                forall|j: int| 0 <= j < rip_fixups@.len() && label_offset(rv, #[trigger] rip_fixups@[j].label@) is Some
                    ==> rip_fixups@[j].offset + 4 <= old(code)@.len(),
                code@ == patch_rip(old(code)@, rv, text_va as int, fv, i as int),
            decreases rip_fixups@.len() - i,
        {
            let fixup = &rip_fixups[i];
            assert(fv[i as int] == (fixup.offset, fixup.label@));
            let found = find_latest(label_rvas, &fixup.label);
            if let Some(target_rva) = found {
                proof {
                    lemma_label_offset_in(rv, fixup.label@);
                    let j = choose|j: int| 0 <= j < rv.len() && #[trigger] rv[j].1 == label_offset(rv,
                        fixup.label@)->0;
                    assert(rv[j].1 == label_rvas@[j].1);
                }
                let fixup_rip = text_va + fixup.offset + 4;
                let disp = (target_rva as i64 - fixup_rip as i64) as i32;
                let n = code.len();
                assert(fixup.offset + 4 <= n);
                let start = fixup.offset as usize;
                assert(disp as u32 == rip_disp(target_rva as int, text_va as int, fixup.offset));
                patch_field(code, start, disp as u32);
            }
            i = i + 1;
        }
    }
}

// ---------------------------------------------------------------------------
// Computing the layout
// ---------------------------------------------------------------------------

proof fn lemma_hint_size_prefix(fs: Seq<Seq<char>>, x: Seq<char>, k: int)
    requires
        0 <= k <= fs.len(),
    ensures
        hint_size(fs.push(x), k) == hint_size(fs, k),
    decreases k,
{
    if k > 0 {
        lemma_hint_size_prefix(fs, x, k - 1);
    }
}

proof fn lemma_hint_size_nonneg(fs: Seq<Seq<char>>, k: int)
    ensures
        hint_size(fs, k) >= 0,
    decreases k,
{
    if 0 < k <= fs.len() {
        lemma_hint_size_nonneg(fs, k - 1);
    }
}

proof fn lemma_hint_size_concat(a: Seq<Seq<char>>, b: Seq<Seq<char>>, k: int)
    requires
        0 <= k <= b.len(),
    ensures
        hint_size(a + b, a.len() + k) == hint_size(a, a.len() as int) + hint_size(b, k),
    decreases k,
{
    if k == 0 {
        lemma_hint_size_take(a + b, a, a.len() as int);
    } else {
        lemma_hint_size_concat(a, b, k - 1);
        assert((a + b)[a.len() + k - 1] == b[k - 1]);
    }
}

proof fn lemma_hint_size_take(s: Seq<Seq<char>>, t: Seq<Seq<char>>, k: int)
    requires
        0 <= k <= s.len(),
        k <= t.len(),
        forall|i: int| 0 <= i < k ==> s[i] == t[i],
    ensures
        hint_size(s, k) == hint_size(t, k),
    decreases k,
{
    if k > 0 {
        lemma_hint_size_take(s, t, k - 1);
    }
}

/// Splitting the externs by DLL keeps their number and the size of their
/// hint/name entries.
proof fn lemma_pick_partition(ex: Seq<Seq<char>>, k: int)
    requires
        0 <= k <= ex.len(),
    ensures
        pick_externs(ex, true, k).len() + pick_externs(ex, false, k).len() == k,
        hint_size(pick_externs(ex, true, k), pick_externs(ex, true, k).len() as int)
            + hint_size(pick_externs(ex, false, k), pick_externs(ex, false, k).len() as int) == hint_size(ex, k),
    decreases k,
{
    if k > 0 {
        lemma_pick_partition(ex, k - 1);
        let t = pick_externs(ex, true, k - 1);
        let f = pick_externs(ex, false, k - 1);
        lemma_hint_size_prefix(t, ex[k - 1], t.len() as int);
        lemma_hint_size_prefix(f, ex[k - 1], f.len() as int);
    }
}

/// The functions of all DLLs are the externs, regrouped.
proof fn lemma_flat_funcs(ex: Seq<Seq<char>>)
    ensures
        flat_funcs(dll_imports(ex), dll_imports(ex).len() as int).len() == ex.len(),
        hint_size(flat_funcs(dll_imports(ex), dll_imports(ex).len() as int),
            flat_funcs(dll_imports(ex), dll_imports(ex).len() as int).len() as int) == hint_size(ex, ex.len() as int),
        dll_imports(ex).len() <= 2,
        slots_before(dll_imports(ex), dll_imports(ex).len() as int) <= ex.len() + 2,
        names_size(dll_imports(ex), dll_imports(ex).len() as int) <= 24,
{
    let dl = dll_imports(ex);
    let t = pick_externs(ex, true, ex.len() as int);
    let f = pick_externs(ex, false, ex.len() as int);
    lemma_pick_partition(ex, ex.len() as int);
    reveal_strlit("kernel32.dll");
    reveal_strlit("msvcrt.dll");
    vstd::utf8::is_ascii_chars_encode_utf8("kernel32.dll"@);
    vstd::utf8::is_ascii_chars_encode_utf8("msvcrt.dll"@);
    let e = Seq::<Seq<char>>::empty();
    if t.len() > 0 && f.len() > 0 {
        assert(dl =~= seq![("kernel32.dll"@, t), ("msvcrt.dll"@, f)]);
        assert(flat_funcs(dl, 0) =~= e);
        assert(flat_funcs(dl, 1) =~= e + t);
        assert(flat_funcs(dl, 2) =~= e + t + f);
        assert(e + t + f =~= t + f);
        lemma_hint_size_concat(t, f, f.len() as int);
        assert(slots_before(dl, 0) == 0);
        assert(slots_before(dl, 1) == t.len() + 1);
        assert(slots_before(dl, 2) == t.len() + f.len() + 2);
        assert(names_size(dl, 0) == 0);
        assert(names_size(dl, 1) == 13);
        assert(names_size(dl, 2) == 24);
    } else if t.len() > 0 {
        assert(dl =~= seq![("kernel32.dll"@, t)]);
        assert(flat_funcs(dl, 0) =~= e);
        assert(flat_funcs(dl, 1) =~= e + t);
        assert(e + t =~= t);
        lemma_hint_size_nonneg(f, f.len() as int);
        assert(slots_before(dl, 0) == 0);
        assert(slots_before(dl, 1) == t.len() + 1);
        assert(names_size(dl, 0) == 0);
        assert(names_size(dl, 1) == 13);
    } else if f.len() > 0 {
        assert(dl =~= seq![("msvcrt.dll"@, f)]);
        assert(flat_funcs(dl, 0) =~= e);
        assert(flat_funcs(dl, 1) =~= e + f);
        assert(e + f =~= f);
        lemma_hint_size_nonneg(t, t.len() as int);
        assert(slots_before(dl, 0) == 0);
        assert(slots_before(dl, 1) == f.len() + 1);
        assert(names_size(dl, 0) == 0);
        assert(names_size(dl, 1) == 11);
    }
}

/// Where everything of an image goes, in machine integers.
struct Layout {
    data_len: u64,
    import_start: u64,
    desc_size: u64,
    hint_name_start: u64,
    dll_name_start: u64,
    iat_start: u64,
    rdata_raw_size: u64,
    code_len: u64,
    text_vsize: u64,
    rdata_va: u64,
    rdata_file_size: u64,
    rdata_virt_size: u64,
    image_size: u64,
    rdata_raw_off: u64,
    iat_va: u64,
}

impl Layout {
    spec fn view(&self) -> PeLayout {
        PeLayout {
            data_len: self.data_len as int,
            import_start: self.import_start as int,
            desc_size: self.desc_size as int,
            hint_name_start: self.hint_name_start as int,
            dll_name_start: self.dll_name_start as int,
            iat_start: self.iat_start as int,
            rdata_raw_size: self.rdata_raw_size as int,
            code_len: self.code_len as int,
            text_vsize: self.text_vsize as int,
            rdata_va: self.rdata_va as int,
            rdata_file_size: self.rdata_file_size as int,
            rdata_virt_size: self.rdata_virt_size as int,
            image_size: self.image_size as int,
            rdata_raw_off: self.rdata_raw_off as int,
            iat_va: self.iat_va as int,
        }
    }
}

/// The bounds within which an image's sizes and addresses are computed
/// exactly in 64 bits.
pub open spec fn pe_inputs_fit(n: int, d: DataView, ex: Seq<Seq<char>>) -> bool {
    &&& n <= 0x100_0000_0000
    &&& data_len(d, d.len() as int) <= 0x100_0000_0000
    &&& data_len(d, d.len() as int) <= usize::MAX
    &&& ex.len() <= 0x1_0000_0000
    &&& hint_size(ex, ex.len() as int) <= 0xFFFF_FFFF
}

/// Computes the layout.
#[verifier::rlimit(100)]
fn compute_layout(n: usize, data_items: &[(String, Vec<u8>)], dlls: &Vec<(String, Vec<String>)>, Ghost(ex): Ghost<Seq<Seq<char>>>)
    -> (l: Layout)
    requires
        dlls_view(dlls@) == dll_imports(ex),
        pe_inputs_fit(n as int, data_view(data_items@), ex),
    ensures
        l.view() == pe_layout(n as int, data_view(data_items@), dlls_view(dlls@)),
        l.rdata_raw_off + l.rdata_file_size <= 0x1000_0000_0000,
        l.iat_va + l.rdata_file_size <= 0x1000_0000_0000,
        l.rdata_va + l.data_len <= 0x1000_0000_0000,
        l.code_len >= n,
        l.import_start >= l.data_len,
        l.rdata_file_size >= l.rdata_raw_size,
        l.rdata_va + l.rdata_raw_size <= 0x1000_0000_0000,
        l.rdata_va + l.import_start <= u64::MAX,
{
    let ghost d = data_view(data_items@);
    let ghost dl = dlls_view(dlls@);
    proof {
        lemma_flat_funcs(ex);
    }
    // Data.
    let mut data_bytes_len: u64 = 0;
    let mut i: usize = 0;
    while i < data_items.len()
        invariant
            i <= data_items@.len(),
            d == data_view(data_items@),
            data_len(d, d.len() as int) <= 0x100_0000_0000,
            data_len(d, d.len() as int) <= usize::MAX,
            data_bytes_len as int == data_len(d, i as int),
        decreases data_items@.len() - i,
    {
        proof {
            lemma_data_len_mono(d, (i + 1) as int, d.len() as int);
        }
        data_bytes_len = data_bytes_len + data_items[i].1.len() as u64;
        i = i + 1;
    }
    let data_pad = pad_len(data_bytes_len as usize, 16) as u64;
    // Imports.
    let desc_size: u64 = ((dlls.len() + 1) * 20) as u64;
    let mut hint_name_size: u64 = 0;
    let mut func_count: u64 = 0;
    let ghost total = flat_funcs(dl, dl.len() as int);
    let mut a: usize = 0;
    while a < dlls.len()
        invariant
            a <= dlls@.len(),
            dl == dlls_view(dlls@),
            dl.len() <= 2,
            desc_size == (dl.len() + 1) * 20,
            data_bytes_len as int == data_len(d, d.len() as int),
            data_pad as int == pad_to(data_bytes_len as int, 16),
            total == flat_funcs(dl, dl.len() as int),
            hint_size(total, total.len() as int) <= 0xFFFF_FFFF,
            total.len() <= 0x1_0000_0000,
            hint_name_size as int == hint_size(flat_funcs(dl, a as int), flat_funcs(dl, a as int).len() as int),
            func_count as int == flat_funcs(dl, a as int).len(),
        decreases dlls@.len() - a,
    {
        let funcs = &dlls[a].1;
        let ghost before = flat_funcs(dl, a as int);
        proof {
            lemma_flat_prefix(dl, (a + 1) as int, dl.len() as int);
            lemma_hint_size_nonneg(dl[a as int].1, dl[a as int].1.len() as int);
            lemma_hint_size_concat(before, dl[a as int].1, dl[a as int].1.len() as int);
        }
        let mut b: usize = 0;
        while b < funcs.len()
            invariant
                a < dlls@.len(),
                dl == dlls_view(dlls@),
                *funcs == dlls@[a as int].1,
                b <= funcs@.len(),
                before == flat_funcs(dl, a as int),
                hint_size(before + dl[a as int].1, (before.len() + dl[a as int].1.len()) as int) <= 0xFFFF_FFFF,
                before.len() + dl[a as int].1.len() <= 0x1_0000_0000,
                hint_name_size as int == hint_size(before, before.len() as int) + hint_size(dl[a as int].1, b as int),
                func_count as int == before.len() + b,
            decreases funcs@.len() - b,
        {
            proof {
                lemma_hint_size_concat(before, dl[a as int].1, (b + 1) as int);
                lemma_hint_size_concat(before, dl[a as int].1, dl[a as int].1.len() as int);
                lemma_hint_size_mono(before + dl[a as int].1, before.len() + b + 1,
                    (before.len() + dl[a as int].1.len()) as int);
                assert(dl[a as int].1[b as int] == funcs@[b as int]@);
                lemma_hint_size_nonneg(before, before.len() as int);
                lemma_hint_size_nonneg(dl[a as int].1, b as int);
                assert(utf8_len(funcs@[b as int]@) <= 0xFFFF_FFFF);
            }
            let name_len = funcs[b].as_str().len();
            assert(name_len as int == utf8_len(funcs@[b as int]@));
            hint_name_size = hint_name_size + 2 + name_len as u64 + 1;
            func_count = func_count + 1;
            b = b + 1;
        }
        a = a + 1;
    }
    let mut dll_name_size: u64 = 0;
    let mut c: usize = 0;
    while c < dlls.len()
        invariant
            c <= dlls@.len(),
            dl == dlls_view(dlls@),
            names_size(dl, dl.len() as int) <= 24,
            dll_name_size as int == names_size(dl, c as int),
        decreases dlls@.len() - c,
    {
        proof {
            lemma_names_size_mono(dl, (c + 1) as int, dl.len() as int);
        }
        dll_name_size = dll_name_size + dlls[c].0.as_str().len() as u64 + 1;
        c = c + 1;
    }
    let iat_size: u64 = (func_count + dlls.len() as u64) * 8;
    let import_start = data_bytes_len + data_pad;
    let hint_name_start = import_start + desc_size;
    let dll_name_start = hint_name_start + hint_name_size;
    let iat_start = dll_name_start + dll_name_size;
    let text_va: u64 = 0x1000;
    proof {
        lemma_align_up(n as u64, 0x200);
        lemma_align_up(n as u64, 0x1000);
    }
    let code_len = align_u64(n as u64, 0x200);
    let text_vsize = align_u64(n as u64, 0x1000);
    let rdata_va = text_va + text_vsize;
    let rdata_raw_size = iat_start + iat_size;
    proof {
        lemma_align_up(rdata_raw_size, 0x200);
        lemma_align_up(rdata_raw_size, 0x1000);
    }
    let rdata_file_size = align_u64(rdata_raw_size, 0x200);
    let rdata_virt_size = align_u64(rdata_raw_size, 0x1000);
    proof {
        lemma_align_up((rdata_va + rdata_virt_size) as u64, 0x1000);
    }
    let image_size = align_u64(rdata_va + rdata_virt_size, 0x1000);
    let hdr_size: u64 = 0x200;
    let l = Layout {
        data_len: data_bytes_len,
        import_start,
        desc_size,
        hint_name_start,
        dll_name_start,
        iat_start,
        rdata_raw_size,
        code_len,
        text_vsize,
        rdata_va,
        rdata_file_size,
        rdata_virt_size,
        image_size,
        rdata_raw_off: hdr_size + code_len,
        iat_va: rdata_va + iat_start,
    };
    proof {
        lemma_pad_to(data_bytes_len as int, 16);
        let p = pe_layout(n as int, d, dl);
        assert(l.view().data_len == p.data_len);
        assert(l.view().import_start == p.import_start);
        assert(l.view().desc_size == p.desc_size);
        assert(l.view().hint_name_start == p.hint_name_start);
        assert(l.view().dll_name_start == p.dll_name_start);
        assert(l.view().iat_start == p.iat_start);
        assert(l.view().rdata_raw_size == p.rdata_raw_size);
        assert(l.view().code_len == p.code_len);
        assert(l.view().text_vsize == p.text_vsize);
        assert(l.view().rdata_va == p.rdata_va);
        assert(l.view().rdata_file_size == p.rdata_file_size);
        assert(l.view().rdata_virt_size == p.rdata_virt_size);
        assert(l.view().image_size == p.image_size);
        assert(l.view().rdata_raw_off == p.rdata_raw_off);
        assert(l.view().iat_va == p.iat_va);
    }
    l
}

proof fn lemma_flat_prefix(dl: Seq<(Seq<char>, Seq<Seq<char>>)>, j: int, k: int)
    requires
        0 <= j <= k <= dl.len(),
    ensures
        flat_funcs(dl, j).len() <= flat_funcs(dl, k).len(),
        hint_size(flat_funcs(dl, j), flat_funcs(dl, j).len() as int)
            <= hint_size(flat_funcs(dl, k), flat_funcs(dl, k).len() as int),
    decreases k - j,
{
    if j < k {
        lemma_flat_prefix(dl, j, k - 1);
        let p = flat_funcs(dl, k - 1);
        lemma_hint_size_concat(p, dl[k - 1].1, dl[k - 1].1.len() as int);
        lemma_hint_size_nonneg(dl[k - 1].1, dl[k - 1].1.len() as int);
    }
}

proof fn lemma_hint_size_mono(fs: Seq<Seq<char>>, j: int, k: int)
    requires
        0 <= j <= k <= fs.len(),
    ensures
        hint_size(fs, j) <= hint_size(fs, k),
    decreases k - j,
{
    if j < k {
        lemma_hint_size_mono(fs, j, k - 1);
    }
}

proof fn lemma_names_size_mono(dl: Seq<(Seq<char>, Seq<Seq<char>>)>, j: int, k: int)
    requires
        0 <= j <= k <= dl.len(),
    ensures
        names_size(dl, j) <= names_size(dl, k),
    decreases k - j,
{
    if j < k {
        lemma_names_size_mono(dl, j, k - 1);
    }
}

// ---------------------------------------------------------------------------
// Writing the image
// ---------------------------------------------------------------------------

/// Writes the DOS header.
fn write_dos_header(out: &mut Vec<u8>)
    ensures
        final(out)@ == old(out)@ + dos_header(),
{
    let magic: [u8; 16] = [0x4D, 0x5A, 0x90, 0x00, 0x03, 0x00, 0x00, 0x00, 0x04, 0x00, 0x00, 0x00, 0xFF, 0xFF, 0x00, 0x00];
    put_bytes(out, &magic);
    put_zeros(out, 0x3C - 16);
    // e_lfanew: the PE signature at 0x80.
    put32(out, 0x80);
    put_zeros(out, 0x40);
    assert(out@ =~= old(out)@ + dos_header());
}

/// Writes the PE signature and the COFF header.
fn write_coff_header(out: &mut Vec<u8>)
    ensures
        final(out)@ == old(out)@ + pe_signature() + coff_header(),
{
    put8(out, 0x50);
    put8(out, 0x45);
    put8(out, 0);
    put8(out, 0);
    put16(out, 0x8664); // machine: AMD64
    put16(out, 2); // sections
    put32(out, 0); // timestamp
    put32(out, 0); // symtab ptr
    put32(out, 0); // sym count
    put16(out, 240); // optional hdr size
    put16(out, 0x22E); // characteristics
    assert(out@ =~= old(out)@ + pe_signature() + coff_header());
}

proof fn lemma_le64_zero()
    ensures
        le64(0) == zeros(8),
{
    assert((0u64 & 0xff) == 0 && ((0u64 >> 8) & 0xff) == 0 && ((0u64 >> 16) & 0xff) == 0
        && ((0u64 >> 24) & 0xff) == 0 && ((0u64 >> 32) & 0xff) == 0 && ((0u64 >> 40) & 0xff) == 0
        && ((0u64 >> 48) & 0xff) == 0 && ((0u64 >> 56) & 0xff) == 0) by (bit_vector);
    assert(le64(0) =~= zeros(8));
}

/// Writes the PE32+ optional header.
#[verifier::rlimit(100)]
fn write_optional_header(out: &mut Vec<u8>, l: &Layout)
    requires
        l.rdata_va + l.import_start <= u64::MAX,
    ensures
        final(out)@ == old(out)@ + optional_header(l.view()),
{
    let text_va: u64 = 0x1000;
    let base_va: u64 = 0x140000000;
    let sect_align: u64 = 0x1000;
    let file_align: u64 = 0x200;
    let hdr_size: u64 = 0x200;
    // Standard fields.
    put16(out, 0x020B); // PE32+ magic
    put8(out, 0x10); // major linker
    put8(out, 0x00); // minor linker
    put32(out, l.code_len as u32); // size of code
    put32(out, l.rdata_file_size as u32); // size of initialized data
    put32(out, 0); // size of uninitialized data
    put32(out, text_va as u32); // entry point
    put32(out, text_va as u32); // base of code
    let ghost o1 = out@;
    // NT additional fields (PE32+).
    put64(out, base_va); // image base
    put32(out, sect_align as u32);
    put32(out, file_align as u32);
    put16(out, 6); // major OS
    put16(out, 0); // minor OS
    put16(out, 0); // major image
    put16(out, 0); // minor image
    put16(out, 6); // major subsystem
    put16(out, 0); // minor subsystem
    put32(out, 0); // Win32 version
    put32(out, l.image_size as u32); // size of image
    put32(out, hdr_size as u32); // size of headers
    put32(out, 0); // checksum
    put16(out, 3); // subsystem: console
    put16(out, 0x8140); // DLL characteristics
    write_optional_tail(out, l);
    assert(out@ =~= old(out)@ + optional_header(l.view()));
}

/// Writes the stack and heap sizes and the data directories of the optional
/// header.
fn write_optional_tail(out: &mut Vec<u8>, l: &Layout)
    requires
        l.rdata_va + l.import_start <= u64::MAX,
    ensures
        final(out)@ == old(out)@ + le64(0x100000) + le64(0x1000) + le64(0x100000) + le64(0x1000) + le32(0)
            + le32(16) + le64(0) + le32((l.view().rdata_va + l.view().import_start) as u32)
            + le32(l.view().desc_size as u32) + zeros(112),
{
    put64(out, 0x100000); // stack reserve
    put64(out, 0x1000); // stack commit
    put64(out, 0x100000); // heap reserve
    put64(out, 0x1000); // heap commit
    put32(out, 0); // loader flags
    put32(out, 16); // data directory count
    // Data directories: export, import, then fourteen empty ones.
    put64(out, 0);
    let import_rva = l.rdata_va + l.import_start;
    put32(out, import_rva as u32);
    put32(out, l.desc_size as u32);
    let ghost o3 = out@;
    let mut k: u64 = 0;
    while k < 14
        invariant
            k <= 14,
            out@ == o3 + zeros(8 * k as int),
        decreases 14 - k,
    {
        put64(out, 0);
        proof {
            lemma_le64_zero();
        }
        k = k + 1;
        assert(out@ =~= o3 + zeros(8 * k as int));
    }
    assert(out@ =~= old(out)@ + le64(0x100000) + le64(0x1000) + le64(0x100000) + le64(0x1000) + le32(0)
        + le32(16) + le64(0) + le32((l.view().rdata_va + l.view().import_start) as u32)
        + le32(l.view().desc_size as u32) + zeros(112));
}

proof fn lemma_slots_flat(dl: Seq<(Seq<char>, Seq<Seq<char>>)>, k: int)
    requires
        0 <= k <= dl.len(),
    ensures
        slots_before(dl, k) == flat_funcs(dl, k).len() + k,
    decreases k,
{
    if k > 0 {
        lemma_slots_flat(dl, k - 1);
    }
}

/// Writes a section header.
fn write_section(out: &mut Vec<u8>, name: &[u8; 8], vsize: u32, va: u32, rsize: u32, roff: u32, chars: u32)
    ensures
        final(out)@ == old(out)@ + section_header(name@, vsize, va, rsize, roff, chars),
{
    put_bytes(out, name);
    put32(out, vsize);
    put32(out, va);
    put32(out, rsize);
    put32(out, roff);
    put32(out, 0); // relocations
    put32(out, 0); // line numbers
    put16(out, 0); // relocation count
    put16(out, 0); // line number count
    put32(out, chars);
    assert(out@ =~= old(out)@ + section_header(name@, vsize, va, rsize, roff, chars));
}

/// The headers take 472 bytes before their padding.
proof fn lemma_header_lens(l: PeLayout)
    ensures
        (dos_header() + pe_signature() + coff_header() + optional_header(l) + text_section(l)
            + rdata_section(l)).len() == 472,
{
    assert(dos_header().len() == 128);
    assert(coff_header().len() == 20);
    assert(optional_header(l).len() == 240);
    assert(text_section(l).len() == 40);
    assert(rdata_section(l).len() == 40);
}

/// Writes every header, padded to 0x200 bytes.
#[verifier::rlimit(100)]
fn write_headers(out: &mut Vec<u8>, l: &Layout)
    requires
        l.rdata_va + l.import_start <= u64::MAX,
    ensures
        final(out)@ == old(out)@ + headers(l.view()),
{
    let ghost o = out@;
    write_dos_header(out);
    write_coff_header(out);
    write_optional_header(out, l);
    let text_name: [u8; 8] = [0x2E, 0x74, 0x65, 0x78, 0x74, 0, 0, 0];
    let rdata_name: [u8; 8] = [0x2E, 0x72, 0x64, 0x61, 0x74, 0x61, 0, 0];
    // .text: code, executable, readable.
    write_section(out, &text_name, l.text_vsize as u32, 0x1000, l.code_len as u32, 0x200, 0x60000020);
    // .rdata: initialized data, readable.
    write_section(out, &rdata_name, l.rdata_virt_size as u32, l.rdata_va as u32, l.rdata_file_size as u32,
        l.rdata_raw_off as u32, 0x40000040);
    let ghost h = dos_header() + pe_signature() + coff_header() + optional_header(l.view()) + text_section(l.view())
        + rdata_section(l.view());
    assert(text_name@ =~= seq![0x2Eu8, 0x74u8, 0x65u8, 0x78u8, 0x74u8, 0u8, 0u8, 0u8]);
    assert(rdata_name@ =~= seq![0x2Eu8, 0x72u8, 0x64u8, 0x61u8, 0x74u8, 0x61u8, 0u8, 0u8]);
    assert(out@ =~= o + h);
    proof {
        lemma_header_lens(l.view());
    }
    put_zeros(out, 0x200 - 472);
    assert(out@ =~= o + headers(l.view()));
}

/// Writes the import descriptors, the hint/name entries, the DLL names and
/// the import address table.
#[verifier::rlimit(60)]
fn write_imports(out: &mut Vec<u8>, dlls: &Vec<(String, Vec<String>)>, l: &Layout)
    requires
        dlls@.len() <= 2,
        l.iat_va == l.rdata_va + l.iat_start,
        l.iat_start + slots_before(dlls_view(dlls@), dlls@.len() as int) * 8 <= l.rdata_raw_size,
        l.dll_name_start + names_size(dlls_view(dlls@), dlls@.len() as int) <= l.iat_start,
        l.hint_name_start + hint_size(flat_funcs(dlls_view(dlls@), dlls@.len() as int),
            flat_funcs(dlls_view(dlls@), dlls@.len() as int).len() as int) <= l.dll_name_start,
        l.rdata_va + l.rdata_raw_size <= 0x1000_0000_0000,
        names_size(dlls_view(dlls@), dlls@.len() as int) <= 24,
        hint_size(flat_funcs(dlls_view(dlls@), dlls@.len() as int),
            flat_funcs(dlls_view(dlls@), dlls@.len() as int).len() as int) <= 0xFFFF_FFFF,
    ensures
        final(out)@ == old(out)@ + descriptors(dlls_view(dlls@), l.view(), dlls@.len() as int) + zeros(20)
            + hint_entries(flat_funcs(dlls_view(dlls@), dlls@.len() as int),
                flat_funcs(dlls_view(dlls@), dlls@.len() as int).len() as int)
            + dll_names(dlls_view(dlls@), dlls@.len() as int) + iat_entries(dlls_view(dlls@), l.view(), dlls@.len() as int),
{
    let ghost dl = dlls_view(dlls@);
    let ghost lv = l.view();
    let ghost o0 = out@;
    proof {
        lemma_slots_before_mono(dl, 0, dl.len() as int);
        lemma_names_size_mono(dl, 0, dl.len() as int);
        let fl = flat_funcs(dl, dl.len() as int);
        lemma_hint_size_nonneg(fl, fl.len() as int);
    }
    // Import descriptors.
    let mut func_offset: u64 = 0;
    let mut name_offset: u64 = 0;
    let mut i: usize = 0;
    while i < dlls.len()
        invariant
            i <= dlls@.len(),
            dl == dlls_view(dlls@),
            lv == l.view(),
            dlls@.len() <= 2,
            l.iat_va == l.rdata_va + l.iat_start,
            l.iat_start + slots_before(dl, dl.len() as int) * 8 <= l.rdata_raw_size,
            l.dll_name_start + names_size(dl, dl.len() as int) <= l.iat_start,
            l.rdata_va + l.rdata_raw_size <= 0x1000_0000_0000,
            l.hint_name_start <= l.dll_name_start,
            names_size(dl, dl.len() as int) <= 24,
            func_offset as int == slots_before(dl, i as int),
            name_offset as int == names_size(dl, i as int),
            out@ == o0 + descriptors(dl, lv, i as int),
        decreases dlls@.len() - i,
    {
        proof {
            lemma_slots_before_mono(dl, (i + 1) as int, dl.len() as int);
            lemma_names_size_mono(dl, (i + 1) as int, dl.len() as int);
            lemma_slots_before_mono(dl, i as int, (i + 1) as int);
        }
        let ilt_va = l.iat_va + func_offset * 8;
        let name_va = l.rdata_va + l.dll_name_start + name_offset;
        put32(out, ilt_va as u32); // lookup table
        put32(out, 0); // time stamp
        put32(out, 0); // forwarder chain
        put32(out, name_va as u32); // name
        put32(out, ilt_va as u32); // address table
        assert(dl[i as int].1 == strs_view(dlls@[i as int].1@));
        func_offset = func_offset + dlls[i].1.len() as u64 + 1;
        assert(dl[i as int].0 == dlls@[i as int].0@);
        let dll_len = dlls[i].0.as_str().len();
        name_offset = name_offset + dll_len as u64 + 1;
        i = i + 1;
        assert(out@ =~= o0 + descriptors(dl, lv, i as int));
    }
    put_zeros(out, 20);
    let ghost o1 = out@;
    // Hint/name entries.
    let ghost funcs = flat_funcs(dl, dl.len() as int);
    let mut a: usize = 0;
    while a < dlls.len()
        invariant
            a <= dlls@.len(),
            dl == dlls_view(dlls@),
            out@ == o1 + hint_entries(flat_funcs(dl, a as int), flat_funcs(dl, a as int).len() as int),
        decreases dlls@.len() - a,
    {
        let fs = &dlls[a].1;
        let ghost before = flat_funcs(dl, a as int);
        let ghost oa = out@;
        let mut b: usize = 0;
        while b < fs.len()
            invariant
                a < dlls@.len(),
                dl == dlls_view(dlls@),
                *fs == dlls@[a as int].1,
                b <= fs@.len(),
                oa == o1 + hint_entries(before, before.len() as int),
                out@ == oa + hint_entries(dl[a as int].1, b as int),
            decreases fs@.len() - b,
        {
            assert(dl[a as int].1[b as int] == fs@[b as int]@);
            put16(out, 0); // hint
            put_bytes(out, fs[b].as_str().as_bytes());
            put8(out, 0);
            b = b + 1;
            assert(out@ =~= oa + hint_entries(dl[a as int].1, b as int));
        }
        proof {
            lemma_hint_entries_concat(before, dl[a as int].1, dl[a as int].1.len() as int);
        }
        a = a + 1;
        assert(out@ =~= o1 + hint_entries(flat_funcs(dl, a as int), flat_funcs(dl, a as int).len() as int));
    }
    let ghost o2 = out@;
    // DLL names.
    let mut c: usize = 0;
    while c < dlls.len()
        invariant
            c <= dlls@.len(),
            dl == dlls_view(dlls@),
            out@ == o2 + dll_names(dl, c as int),
        decreases dlls@.len() - c,
    {
        assert(dl[c as int].0 == dlls@[c as int].0@);
        put_bytes(out, dlls[c].0.as_str().as_bytes());
        put8(out, 0);
        c = c + 1;
        assert(out@ =~= o2 + dll_names(dl, c as int));
    }
    let ghost o3 = out@;
    // Import address table: each slot holds the address of its hint/name
    // entry; a zero slot ends each DLL's run.
    proof {
        lemma_hint_size_nonneg(funcs, funcs.len() as int);
    }
    let mut hint_rva: u64 = l.rdata_va + l.hint_name_start;
    let mut x: usize = 0;
    while x < dlls.len()
        invariant
            x <= dlls@.len(),
            dl == dlls_view(dlls@),
            lv == l.view(),
            funcs == flat_funcs(dl, dl.len() as int),
            l.hint_name_start + hint_size(funcs, funcs.len() as int) <= l.dll_name_start,
            hint_size(funcs, funcs.len() as int) <= 0xFFFF_FFFF,
            l.dll_name_start <= l.iat_start,
            l.iat_start <= l.rdata_raw_size,
            l.rdata_va + l.rdata_raw_size <= 0x1000_0000_0000,
            hint_rva as int == l.rdata_va + l.hint_name_start + hint_size(flat_funcs(dl, x as int),
                flat_funcs(dl, x as int).len() as int),
            out@ == o3 + iat_entries(dl, lv, x as int),
        decreases dlls@.len() - x,
    {
        let fs = &dlls[x].1;
        let ghost before = flat_funcs(dl, x as int);
        let ghost base = l.rdata_va + l.hint_name_start + hint_size(before, before.len() as int);
        let ghost ox = out@;
        proof {
            lemma_flat_prefix(dl, (x + 1) as int, dl.len() as int);
            lemma_hint_size_concat(before, dl[x as int].1, dl[x as int].1.len() as int);
            lemma_hint_size_nonneg(before, before.len() as int);
            lemma_hint_size_nonneg(dl[x as int].1, dl[x as int].1.len() as int);
        }
        let mut y: usize = 0;
        while y < fs.len()
            invariant
                x < dlls@.len(),
                dl == dlls_view(dlls@),
                *fs == dlls@[x as int].1,
                y <= fs@.len(),
                base + hint_size(dl[x as int].1, dl[x as int].1.len() as int) <= 0x1000_0000_0000,
                hint_size(dl[x as int].1, dl[x as int].1.len() as int) <= 0xFFFF_FFFF,
                hint_rva as int == base + hint_size(dl[x as int].1, y as int),
                out@ == ox + thunks(dl[x as int].1, base, y as int),
            decreases fs@.len() - y,
        {
            proof {
                lemma_hint_size_mono(dl[x as int].1, (y + 1) as int, dl[x as int].1.len() as int);
                lemma_hint_size_nonneg(dl[x as int].1, y as int);
            }
            put64(out, hint_rva);
            assert(dl[x as int].1[y as int] == fs@[y as int]@);
            let name_len = fs[y].as_str().len();
            hint_rva = hint_rva + 2 + name_len as u64 + 1;
            y = y + 1;
            assert(out@ =~= ox + thunks(dl[x as int].1, base, y as int));
        }
        put64(out, 0);
        x = x + 1;
        assert(out@ =~= o3 + iat_entries(dl, lv, x as int));
    }
    assert(out@ =~= o0 + descriptors(dl, lv, dl.len() as int) + zeros(20) + hint_entries(funcs, funcs.len() as int)
        + dll_names(dl, dl.len() as int) + iat_entries(dl, lv, dl.len() as int));
}

proof fn lemma_hint_entries_concat(a: Seq<Seq<char>>, b: Seq<Seq<char>>, k: int)
    requires
        0 <= k <= b.len(),
    ensures
        hint_entries(a + b, a.len() + k) == hint_entries(a, a.len() as int) + hint_entries(b, k),
    decreases k,
{
    if k == 0 {
        lemma_hint_entries_take(a + b, a, a.len() as int);
        assert(hint_entries(a, a.len() as int) + hint_entries(b, 0) =~= hint_entries(a, a.len() as int));
    } else {
        lemma_hint_entries_concat(a, b, k - 1);
        assert((a + b)[a.len() + k - 1] == b[k - 1]);
    }
}

proof fn lemma_hint_entries_take(s: Seq<Seq<char>>, t: Seq<Seq<char>>, k: int)
    requires
        0 <= k <= s.len(),
        k <= t.len(),
        forall|i: int| 0 <= i < k ==> s[i] == t[i],
    ensures
        hint_entries(s, k) == hint_entries(t, k),
    decreases k,
{
    if k > 0 {
        lemma_hint_entries_take(s, t, k - 1);
    }
}

/// Every relocation that gets patched lies within the code: a call through
/// the import table to an extern, a reference to a data item.
pub open spec fn fixups_fit(n: int, d: DataView, ex: Seq<Seq<char>>, iat: Seq<(u64, Seq<char>)>,
    rip: Seq<(u64, Seq<char>)>) -> bool {
    let dl = dll_imports(ex);
    let l = pe_layout(n, d, dl);
    &&& forall|j: int| 0 <= j < iat.len() && label_offset(slot_entries(dl, dl.len() as int), #[trigger] iat[j].1) is Some
        ==> iat[j].0 + 4 <= n
    &&& forall|j: int| 0 <= j < rip.len() && label_offset(data_rvas(d, l.rdata_va, d.len() as int), #[trigger] rip[j].1)
        is Some ==> rip[j].0 + 4 <= n
}

impl<'a> PeWriter<'a> {
    /// Patches the code and lays out the image.
    #[verifier::rlimit(100)]
    fn build(&self, code: &mut [u8], data_items: &[(String, Vec<u8>)], iat_fixups: &[ExternFixup],
        rip_fixups: &[RipRelFixup]) -> (r: Result<Vec<u8>, String>)
        requires
            pe_inputs_fit(old(code)@.len() as int, data_view(data_items@), strs_view(self.externs@)),
            fixups_fit(old(code)@.len() as int, data_view(data_items@), strs_view(self.externs@),
                extern_fixups_view(iat_fixups@), riprel_fixups_view(rip_fixups@)),
        ensures
            r matches Ok(img) && img@ == pe_image(old(code)@, data_view(data_items@), strs_view(self.externs@),
                extern_fixups_view(iat_fixups@), riprel_fixups_view(rip_fixups@)),
            final(code)@ == patched_code(old(code)@, data_view(data_items@), dll_imports(strs_view(self.externs@)),
                extern_fixups_view(iat_fixups@), riprel_fixups_view(rip_fixups@)),
    {
        let ghost ex = strs_view(self.externs@);
        let ghost d = data_view(data_items@);
        let ghost n = code@.len();
        let ghost c0 = code@;
        // Group the externs by DLL.
        let dlls = group_imports(self.externs);
        let ghost dl = dlls_view(dlls@);
        proof {
            lemma_flat_funcs(ex);
            lemma_slots_flat(dl, dl.len() as int);
        }
        // Lay out `.rdata` and the sections.
        let l = compute_layout(code.len(), data_items, &dlls, Ghost(ex));
        let ghost lv = l.view();
        // Patch calls through the import table.
        let base_va: u64 = 0x140000000;
        let text_va: u64 = 0x1000;
        proof {
            let iv = extern_fixups_view(iat_fixups@);
            assert(fixups_fit(n as int, d, ex, iv, riprel_fixups_view(rip_fixups@)));
            assert(dl == dll_imports(ex));
            assert forall|j: int| 0 <= j < iat_fixups@.len() && label_offset(slot_entries(dl, dl.len() as int),
                #[trigger] iat_fixups@[j].name@) is Some implies iat_fixups@[j].offset + 4 <= n by {
                assert(iv[j] == (iat_fixups@[j].offset, iat_fixups@[j].name@));
                assert(label_offset(slot_entries(dl, dl.len() as int), iv[j].1) is Some);
            }
        }
        self.patch_iat_fixups(code, base_va, text_va, l.iat_va, &dlls, iat_fixups);
        // Patch references to data items.
        let label_rvas = data_label_rvas(data_items, l.rdata_va);
        proof {
            lemma_data_rvas_bound(d, l.rdata_va as int, d.len() as int);
            assert forall|j: int| 0 <= j < label_rvas@.len() implies #[trigger] label_rvas@[j].1
                <= 0x1_0000_0000_0000 by {
                assert(labels_view(label_rvas@)[j].1 == label_rvas@[j].1);
            }
            let rv = riprel_fixups_view(rip_fixups@);
            assert(fixups_fit(n as int, d, ex, extern_fixups_view(iat_fixups@), rv));
            assert(dl == dll_imports(ex));
            assert(labels_view(label_rvas@) == data_rvas(d, pe_layout(n as int, d, dl).rdata_va, d.len() as int));
            assert forall|j: int| 0 <= j < rip_fixups@.len() && label_offset(labels_view(label_rvas@),
                #[trigger] rip_fixups@[j].label@) is Some implies rip_fixups@[j].offset + 4 <= n by {
                assert(rv[j] == (rip_fixups@[j].offset, rip_fixups@[j].label@));
                assert(label_offset(data_rvas(d, pe_layout(n as int, d, dl).rdata_va, d.len() as int), rv[j].1) is Some);
            }
        }
        self.patch_rip_fixups(code, text_va, &label_rvas, rip_fixups);
        // Headers.
        let mut out: Vec<u8> = Vec::new();
        write_headers(&mut out, &l);
        // .text
        put_bytes(&mut out, code);
        put_zeros(&mut out, l.code_len - code.len() as u64);
        let ghost o1 = out@;
        // .rdata: data items, then the import directory.
        let mut i: usize = 0;
        while i < data_items.len()
            invariant
                i <= data_items@.len(),
                d == data_view(data_items@),
                out@ == o1 + data_bytes(d, i as int),
            decreases data_items@.len() - i,
        {
            put_bytes(&mut out, data_items[i].1.as_slice());
            i = i + 1;
            assert(out@ =~= o1 + data_bytes(d, i as int));
        }
        proof {
            lemma_data_bytes_len(d, d.len() as int);
        }
        put_zeros(&mut out, l.import_start - l.data_len);
        write_imports(&mut out, &dlls, &l);
        put_zeros(&mut out, l.rdata_file_size - l.rdata_raw_size);
        assert(out@ =~= pe_image(c0, d, ex, extern_fixups_view(iat_fixups@), riprel_fixups_view(rip_fixups@)));
        Ok(out)
    }
}

proof fn lemma_data_bytes_len(d: DataView, k: int)
    requires
        0 <= k <= d.len(),
    ensures
        data_bytes(d, k).len() == data_len(d, k),
    decreases k,
{
    if k > 0 {
        lemma_data_bytes_len(d, k - 1);
    }
}

/// Builds a minimal PE32+ executable from encoded code, the data items and
/// the externs: the calls through the import table and the references to
/// data items that the encoder left are patched into `code` first.
pub fn build_pe(code: &mut [u8], data_items: &[(String, Vec<u8>)], externs: &[String], iat_fixups: &[ExternFixup],
    rip_fixups: &[RipRelFixup]) -> (r: Result<Vec<u8>, String>)
    requires
        pe_inputs_fit(old(code)@.len() as int, data_view(data_items@), strs_view(externs@)),
        fixups_fit(old(code)@.len() as int, data_view(data_items@), strs_view(externs@), extern_fixups_view(iat_fixups@),
            riprel_fixups_view(rip_fixups@)),
    ensures
        r matches Ok(img) && img@ == pe_image(old(code)@, data_view(data_items@), strs_view(externs@),
            extern_fixups_view(iat_fixups@), riprel_fixups_view(rip_fixups@)),
        final(code)@ == patched_code(old(code)@, data_view(data_items@), dll_imports(strs_view(externs@)),
            extern_fixups_view(iat_fixups@), riprel_fixups_view(rip_fixups@)),
{
    let writer = PeWriter { externs };
    writer.build(code, data_items, iat_fixups, rip_fixups)
}

// ---------------------------------------------------------------------------
// The shape of the image
// ---------------------------------------------------------------------------

proof fn lemma_patch_iat_len(code: Seq<u8>, slots: Seq<(Seq<char>, u64)>, text_va: int, iat_va: int,
    fs: Seq<(u64, Seq<char>)>, k: int)
    requires
        0 <= k <= fs.len(),
        forall|j: int| 0 <= j < fs.len() && label_offset(slots, #[trigger] fs[j].1) is Some ==> fs[j].0 + 4 <= code.len(),
    ensures
        patch_iat(code, slots, text_va, iat_va, fs, k).len() == code.len(),
    decreases k,
{
    if k > 0 {
        lemma_patch_iat_len(code, slots, text_va, iat_va, fs, k - 1);
        if label_offset(slots, fs[k - 1].1) is Some {
            assert(fs[k - 1].0 + 4 <= code.len());
        }
    }
}

proof fn lemma_patch_rip_len(code: Seq<u8>, rvas: Seq<(Seq<char>, u64)>, text_va: int, fs: Seq<(u64, Seq<char>)>,
    k: int)
    requires
        0 <= k <= fs.len(),
        forall|j: int| 0 <= j < fs.len() && label_offset(rvas, #[trigger] fs[j].1) is Some ==> fs[j].0 + 4 <= code.len(),
    ensures
        patch_rip(code, rvas, text_va, fs, k).len() == code.len(),
    decreases k,
{
    if k > 0 {
        lemma_patch_rip_len(code, rvas, text_va, fs, k - 1);
        if label_offset(rvas, fs[k - 1].1) is Some {
            assert(fs[k - 1].0 + 4 <= code.len());
        }
    }
}

proof fn lemma_hint_entries_len(fs: Seq<Seq<char>>, k: int)
    requires
        0 <= k <= fs.len(),
    ensures
        hint_entries(fs, k).len() == hint_size(fs, k),
    decreases k,
{
    if k > 0 {
        lemma_hint_entries_len(fs, k - 1);
    }
}

proof fn lemma_dll_names_len(dl: Seq<(Seq<char>, Seq<Seq<char>>)>, k: int)
    requires
        0 <= k <= dl.len(),
    ensures
        dll_names(dl, k).len() == names_size(dl, k),
    decreases k,
{
    if k > 0 {
        lemma_dll_names_len(dl, k - 1);
    }
}

proof fn lemma_descriptors_len(dl: Seq<(Seq<char>, Seq<Seq<char>>)>, l: PeLayout, k: int)
    requires
        0 <= k <= dl.len(),
    ensures
        descriptors(dl, l, k).len() == 20 * k,
    decreases k,
{
    if k > 0 {
        lemma_descriptors_len(dl, l, k - 1);
    }
}

proof fn lemma_thunks_len(fs: Seq<Seq<char>>, base: int, k: int)
    requires
        0 <= k <= fs.len(),
    ensures
        thunks(fs, base, k).len() == 8 * k,
    decreases k,
{
    if k > 0 {
        lemma_thunks_len(fs, base, k - 1);
    }
}

proof fn lemma_iat_entries_len(dl: Seq<(Seq<char>, Seq<Seq<char>>)>, l: PeLayout, k: int)
    requires
        0 <= k <= dl.len(),
    ensures
        iat_entries(dl, l, k).len() == 8 * (flat_funcs(dl, k).len() + k),
    decreases k,
{
    if k > 0 {
        lemma_iat_entries_len(dl, l, k - 1);
        let before = flat_funcs(dl, k - 1);
        let base = l.rdata_va + l.hint_name_start + hint_size(before, before.len() as int);
        lemma_thunks_len(dl[k - 1].1, base, dl[k - 1].1.len() as int);
    }
}

proof fn lemma_headers_shape(l: PeLayout)
    ensures
        headers(l).len() == 0x200,
        headers(l).subrange(0, 2) == seq![0x4Du8, 0x5Au8],
        headers(l).subrange(0x80, 0x84) == pe_signature(),
{
    lemma_header_lens(l);
    assert(dos_header().len() == 128);
    assert(headers(l).subrange(0, 2) =~= seq![0x4Du8, 0x5Au8]);
    assert(headers(l).subrange(0x80, 0x84) =~= pe_signature());
}

proof fn lemma_patched_len(code: Seq<u8>, d: DataView, ex: Seq<Seq<char>>, iat: Seq<(u64, Seq<char>)>,
    rip: Seq<(u64, Seq<char>)>)
    requires
        fixups_fit(code.len() as int, d, ex, iat, rip),
    ensures
        patched_code(code, d, dll_imports(ex), iat, rip).len() == code.len(),
{
    let dl = dll_imports(ex);
    let l = pe_layout(code.len() as int, d, dl);
    let c1 = patch_iat(code, slot_entries(dl, dl.len() as int), 0x1000, l.iat_va, iat, iat.len() as int);
    lemma_patch_iat_len(code, slot_entries(dl, dl.len() as int), 0x1000, l.iat_va, iat, iat.len() as int);
    lemma_patch_rip_len(c1, data_rvas(d, l.rdata_va, d.len() as int), 0x1000, rip, rip.len() as int);
}

#[verifier::spinoff_prover]
#[verifier::rlimit(60)]
proof fn lemma_sections_shape(n: int, d: DataView, ex: Seq<Seq<char>>)
    requires
        0 <= n,
        pe_inputs_fit(n, d, ex),
    ensures
        rdata_bytes(d, dll_imports(ex), pe_layout(n, d, dll_imports(ex))).len()
            == pe_layout(n, d, dll_imports(ex)).rdata_file_size,
        pe_layout(n, d, dll_imports(ex)).rdata_file_size % 0x200 == 0,
        pe_layout(n, d, dll_imports(ex)).code_len % 0x200 == 0,
        n <= pe_layout(n, d, dll_imports(ex)).code_len,
{
    let dl = dll_imports(ex);
    let l = pe_layout(n, d, dl);
    let funcs = flat_funcs(dl, dl.len() as int);
    lemma_flat_funcs(ex);
    lemma_align_up(n as u64, 0x200);
    lemma_data_bytes_len(d, d.len() as int);
    lemma_pad_to(l.data_len, 16);
    lemma_descriptors_len(dl, l, dl.len() as int);
    lemma_hint_entries_len(funcs, funcs.len() as int);
    lemma_dll_names_len(dl, dl.len() as int);
    lemma_iat_entries_len(dl, l, dl.len() as int);
    lemma_hint_size_nonneg(funcs, funcs.len() as int);
    lemma_data_len_nonneg(d, d.len() as int);
    lemma_names_size_nonneg(dl, dl.len() as int);
    assert(l.rdata_raw_size <= 0x1_0000_0000_0000);
    lemma_align_up(l.rdata_raw_size as u64, 0x200);
}

/// Law: the image is the headers (0x200 bytes, starting with `MZ` and
/// with the PE signature at 0x80), the patched code padded to the file
/// alignment, and the `.rdata` section padded likewise; so its length is a
/// multiple of 0x200 and the code starts at offset 0x200.
#[verifier::spinoff_prover]
#[verifier::rlimit(60)]
pub proof fn lemma_image_shape(code: Seq<u8>, d: DataView, ex: Seq<Seq<char>>, iat: Seq<(u64, Seq<char>)>,
    rip: Seq<(u64, Seq<char>)>)
    requires
        pe_inputs_fit(code.len() as int, d, ex),
        fixups_fit(code.len() as int, d, ex, iat, rip),
    ensures
        pe_image(code, d, ex, iat, rip).len() == 0x200 + pe_layout(code.len() as int, d, dll_imports(ex)).code_len
            + pe_layout(code.len() as int, d, dll_imports(ex)).rdata_file_size,
        pe_image(code, d, ex, iat, rip).len() % 0x200 == 0,
        pe_image(code, d, ex, iat, rip).subrange(0, 2) == seq![0x4Du8, 0x5Au8],
        pe_image(code, d, ex, iat, rip).subrange(0x80, 0x84) == pe_signature(),
        pe_image(code, d, ex, iat, rip).subrange(0x200, 0x200 + code.len() as int)
            == patched_code(code, d, dll_imports(ex), iat, rip),
{
    let n = code.len() as int;
    let dl = dll_imports(ex);
    let l = pe_layout(n, d, dl);
    lemma_headers_shape(l);
    lemma_patched_len(code, d, ex, iat, rip);
    lemma_sections_shape(n, d, ex);
    let pc = patched_code(code, d, dl, iat, rip);
    let r = rdata_bytes(d, dl, l);
    let img = pe_image(code, d, ex, iat, rip);
    assert(img == headers(l) + pc + zeros(l.code_len - n) + r);
    assert(img.subrange(0, 2) =~= headers(l).subrange(0, 2));
    assert(img.subrange(0x80, 0x84) =~= headers(l).subrange(0x80, 0x84));
    assert(img.subrange(0x200, 0x200 + n) =~= pc);
}

proof fn lemma_data_len_nonneg(d: DataView, k: int)
    ensures
        data_len(d, k) >= 0,
    decreases k,
{
    if k > 0 && k <= d.len() {
        lemma_data_len_nonneg(d, k - 1);
    }
}

proof fn lemma_names_size_nonneg(dl: Seq<(Seq<char>, Seq<Seq<char>>)>, k: int)
    ensures
        names_size(dl, k) >= 0,
    decreases k,
{
    if k > 0 && k <= dl.len() {
        lemma_names_size_nonneg(dl, k - 1);
    }
}

} // verus!
