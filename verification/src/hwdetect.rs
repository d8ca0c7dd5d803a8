//! Hardware detection from CPUID.
//!
//! The shell executes CPUID and hands the registers over; this module
//! decides which features the machine has:
//! - APIC/x2APIC for modern interrupt handling
//! - AMD SEV/SEV-SNP and Intel TME for confidential agent memory
//! - TSC Deadline for precision agent timeouts
//! - FSGSBASE for fast agent context switching

use vstd::prelude::*;

verus! {

/// CPU vendor, from the CPUID leaf 0 signature.
#[derive(Debug, Clone, Copy, PartialEq, Eq, Structural)]
pub enum CpuVendor {
    Intel,
    Amd,
    Unknown,
}

/// The CPUID registers that feature detection reads. Leaves the processor
/// does not report (see `max_leaf` and `max_ext_leaf`) are ignored.
#[derive(Debug, Clone, Copy, PartialEq, Eq, Structural)]
pub struct CpuidReadings {
    /// Leaf 0: EAX, the highest basic leaf.
    pub max_leaf: u32,
    /// Leaf 0: EBX, ECX, EDX, the vendor signature.
    pub vendor_ebx: u32,
    pub vendor_ecx: u32,
    pub vendor_edx: u32,
    /// Leaf 1: ECX and EDX feature flags.
    pub leaf1_ecx: u32,
    pub leaf1_edx: u32,
    /// Leaf 7, sub-leaf 0: EBX and ECX extended features.
    pub leaf7_ebx: u32,
    pub leaf7_ecx: u32,
    /// Leaf 0x80000000: EAX, the highest extended leaf.
    pub max_ext_leaf: u32,
    /// Leaf 0x80000001: EDX.
    pub ext1_edx: u32,
    /// Leaf 0x8000001F: EAX, the AMD memory-encryption features.
    pub sev_eax: u32,
}

/// Detected hardware capabilities
#[derive(Debug, Clone, Copy, PartialEq, Eq, Structural)]
pub struct HwCaps {
    /// Local APIC present
    pub apic: bool,
    /// x2APIC mode supported (scalable APIC)
    pub x2apic: bool,
    /// TSC Deadline timer (precision timeouts)
    pub tsc_deadline: bool,
    /// FSGSBASE instructions (fast context switch)
    pub fsgsbase: bool,
    /// 1 GiB pages supported
    pub gigabyte_pages: bool,
    /// RDRAND instruction (hardware RNG)
    pub rdrand: bool,
    /// AMD SEV (Secure Encrypted Virtualization)
    pub sev: bool,
    /// AMD SEV-SNP (Secure Nested Paging)
    pub sev_snp: bool,
    /// Intel TME (Total Memory Encryption)
    pub tme: bool,
    /// SSE4.2 (for fast hashing in audit log)
    pub sse42: bool,
    /// CPU vendor string
    pub vendor: CpuVendor,
}

/// Bit `n` of `x` is set.
pub open spec fn bit(x: u32, n: u32) -> bool {
    (x >> n) & 1u32 == 1u32
}

/// Test bit `n` of `x`.
fn test_bit(x: u32, n: u32) -> (b: bool)
    requires
        n < 32,
    ensures
        b == bit(x, n),
{
    assert(x & (1u32 << n) != 0 <==> (x >> n) & 1u32 == 1u32) by (bit_vector)
        requires
            n < 32,
    ;
    x & (1u32 << n) != 0
}

/// The vendor a leaf 0 signature names: `GenuineIntel` or `AuthenticAMD`.
pub open spec fn vendor_of(ebx: u32, ecx: u32, edx: u32) -> CpuVendor {
    if ebx == 0x756e6547 && edx == 0x49656e69 && ecx == 0x6c65746e {
        CpuVendor::Intel
    } else if ebx == 0x68747541 && edx == 0x69746e65 && ecx == 0x444d4163 {
        CpuVendor::Amd
    } else {
        CpuVendor::Unknown
    }
}

/// Detect the CPU vendor from the leaf 0 signature.
pub fn detect_vendor(ebx: u32, ecx: u32, edx: u32) -> (v: CpuVendor)
    ensures
        v == vendor_of(ebx, ecx, edx),
{
    if ebx == 0x756e6547 && edx == 0x49656e69 && ecx == 0x6c65746e {
        CpuVendor::Intel
    } else if ebx == 0x68747541 && edx == 0x69746e65 && ecx == 0x444d4163 {
        CpuVendor::Amd
    } else {
        CpuVendor::Unknown
    }
}

/// The capabilities CPUID readings report.
pub open spec fn caps_of(r: CpuidReadings) -> HwCaps {
    let vendor = vendor_of(r.vendor_ebx, r.vendor_ecx, r.vendor_edx);
    HwCaps {
        apic: bit(r.leaf1_edx, 9),
        x2apic: bit(r.leaf1_ecx, 21),
        tsc_deadline: bit(r.leaf1_ecx, 24),
        fsgsbase: r.max_leaf >= 7 && bit(r.leaf7_ebx, 0),
        gigabyte_pages: r.max_ext_leaf >= 0x80000001 && bit(r.ext1_edx, 26),
        rdrand: bit(r.leaf1_ecx, 30),
        sev: vendor == CpuVendor::Amd && r.max_ext_leaf >= 0x8000001F && bit(r.sev_eax, 1),
        sev_snp: vendor == CpuVendor::Amd && r.max_ext_leaf >= 0x8000001F && bit(r.sev_eax, 4),
        tme: vendor == CpuVendor::Intel && r.max_leaf >= 7 && bit(r.leaf7_ecx, 13),
        sse42: bit(r.leaf1_ecx, 20),
        vendor,
    }
}

/// Where CPUID reports each feature (Intel SDM / AMD APM bit positions):
/// leaf 1 EDX bit 9 APIC; leaf 1 ECX bit 20 SSE4.2, bit 21 x2APIC, bit 24
/// TSC deadline, bit 30 RDRAND; leaf 7 EBX bit 0 FSGSBASE, ECX bit 13 TME
/// (Intel); leaf 0x80000001 EDX bit 26 1 GiB pages; leaf 0x8000001F EAX
/// bit 1 SEV, bit 4 SEV-SNP (AMD). A leaf past the highest one reported
/// reports nothing.
pub proof fn lemma_cpuid_bits(r: CpuidReadings)
    ensures
        ({
            let caps = caps_of(r);
            &&& caps.apic == (r.leaf1_edx & 0x0000_0200 != 0)
            &&& caps.sse42 == (r.leaf1_ecx & 0x0010_0000 != 0)
            &&& caps.x2apic == (r.leaf1_ecx & 0x0020_0000 != 0)
            &&& caps.tsc_deadline == (r.leaf1_ecx & 0x0100_0000 != 0)
            &&& caps.rdrand == (r.leaf1_ecx & 0x4000_0000 != 0)
            &&& caps.fsgsbase == (r.max_leaf >= 7 && r.leaf7_ebx & 1 != 0)
            &&& caps.gigabyte_pages == (r.max_ext_leaf >= 0x8000_0001 && r.ext1_edx & 0x0400_0000 != 0)
            &&& caps.sev == (caps.vendor == CpuVendor::Amd && r.max_ext_leaf >= 0x8000_001F && r.sev_eax & 0x2 != 0)
            &&& caps.sev_snp == (caps.vendor == CpuVendor::Amd && r.max_ext_leaf >= 0x8000_001F && r.sev_eax & 0x10 != 0)
            &&& caps.tme == (caps.vendor == CpuVendor::Intel && r.max_leaf >= 7 && r.leaf7_ecx & 0x2000 != 0)
        }),
{
    let (a, b, c, d, e, f) = (r.leaf1_edx, r.leaf1_ecx, r.leaf7_ebx, r.ext1_edx, r.sev_eax, r.leaf7_ecx);
    assert(bit(a, 9) == (a & 0x0000_0200 != 0)) by (bit_vector);
    assert(bit(b, 20) == (b & 0x0010_0000 != 0)) by (bit_vector);
    assert(bit(b, 21) == (b & 0x0020_0000 != 0)) by (bit_vector);
    assert(bit(b, 24) == (b & 0x0100_0000 != 0)) by (bit_vector);
    assert(bit(b, 30) == (b & 0x4000_0000 != 0)) by (bit_vector);
    assert(bit(c, 0) == (c & 1 != 0)) by (bit_vector);
    assert(bit(d, 26) == (d & 0x0400_0000 != 0)) by (bit_vector);
    assert(bit(e, 1) == (e & 0x2 != 0)) by (bit_vector);
    assert(bit(e, 4) == (e & 0x10 != 0)) by (bit_vector);
    assert(bit(f, 13) == (f & 0x2000 != 0)) by (bit_vector);
}

/// The bytes of a register as CPUID lays out text in it, lowest byte first.
pub open spec fn reg_bytes(x: u32) -> Seq<u8> {
    seq![(x & 0xFF) as u8, ((x >> 8) & 0xFF) as u8, ((x >> 16) & 0xFF) as u8, ((x >> 24) & 0xFF) as u8]
}

/// Two registers hold the same four bytes exactly when they are equal.
proof fn lemma_reg_bytes_injective(x: u32, y: u32)
    ensures
        reg_bytes(x) == reg_bytes(y) <==> x == y,
{
    if reg_bytes(x) == reg_bytes(y) {
        assert(reg_bytes(x)[0] == reg_bytes(y)[0] && reg_bytes(x)[1] == reg_bytes(y)[1]);
        assert(reg_bytes(x)[2] == reg_bytes(y)[2] && reg_bytes(x)[3] == reg_bytes(y)[3]);
        assert(x == y) by (bit_vector)
            requires
                (x & 0xFF) as u8 == (y & 0xFF) as u8,
                ((x >> 8) & 0xFF) as u8 == ((y >> 8) & 0xFF) as u8,
                ((x >> 16) & 0xFF) as u8 == ((y >> 16) & 0xFF) as u8,
                ((x >> 24) & 0xFF) as u8 == ((y >> 24) & 0xFF) as u8,
        ;
    }
}

/// Three registers spell `t` (twelve bytes, EBX then EDX then ECX) exactly
/// when each holds its four.
proof fn lemma_signature_split(ebx: u32, edx: u32, ecx: u32, t: Seq<u8>)
    requires
        t.len() == 12,
    ensures
        reg_bytes(ebx) + reg_bytes(edx) + reg_bytes(ecx) == t <==> reg_bytes(ebx) == t.subrange(0, 4)
            && reg_bytes(edx) == t.subrange(4, 8) && reg_bytes(ecx) == t.subrange(8, 12),
{
    let sig = reg_bytes(ebx) + reg_bytes(edx) + reg_bytes(ecx);
    if sig == t {
        assert(reg_bytes(ebx) =~= t.subrange(0, 4));
        assert(reg_bytes(edx) =~= t.subrange(4, 8));
        assert(reg_bytes(ecx) =~= t.subrange(8, 12));
    }
    if reg_bytes(ebx) == t.subrange(0, 4) && reg_bytes(edx) == t.subrange(4, 8) && reg_bytes(ecx) == t.subrange(8, 12) {
        assert(sig =~= t);
    }
}

/// "GenuineIntel", as bytes.
pub open spec fn genuine_intel() -> Seq<u8> {
    seq![
        'G' as u8, 'e' as u8, 'n' as u8, 'u' as u8, 'i' as u8, 'n' as u8,
        'e' as u8, 'I' as u8, 'n' as u8, 't' as u8, 'e' as u8, 'l' as u8,
    ]
}

/// "AuthenticAMD", as bytes.
pub open spec fn authentic_amd() -> Seq<u8> {
    seq![
        'A' as u8, 'u' as u8, 't' as u8, 'h' as u8, 'e' as u8, 'n' as u8,
        't' as u8, 'i' as u8, 'c' as u8, 'A' as u8, 'M' as u8, 'D' as u8,
    ]
}

/// The vendor is Intel exactly when the leaf 0 signature (EBX, EDX, ECX)
/// spells "GenuineIntel", and AMD exactly when it spells "AuthenticAMD".
pub proof fn lemma_vendor_signature(ebx: u32, ecx: u32, edx: u32)
    ensures
        vendor_of(ebx, ecx, edx) == CpuVendor::Intel <==> reg_bytes(ebx) + reg_bytes(edx) + reg_bytes(ecx)
            == genuine_intel(),
        vendor_of(ebx, ecx, edx) == CpuVendor::Amd <==> reg_bytes(ebx) + reg_bytes(edx) + reg_bytes(ecx)
            == authentic_amd(),
{
    assert((0x756e6547u32 & 0xFF) as u8 == 0x47u8 && ((0x756e6547u32 >> 8) & 0xFF) as u8 == 0x65u8 && ((0x756e6547u32 >> 16) & 0xFF) as u8 == 0x6eu8 && ((0x756e6547u32 >> 24) & 0xFF) as u8 == 0x75u8) by (bit_vector);
    assert(genuine_intel().subrange(0, 4) =~= reg_bytes(0x756e6547u32));
    assert((0x49656e69u32 & 0xFF) as u8 == 0x69u8 && ((0x49656e69u32 >> 8) & 0xFF) as u8 == 0x6eu8 && ((0x49656e69u32 >> 16) & 0xFF) as u8 == 0x65u8 && ((0x49656e69u32 >> 24) & 0xFF) as u8 == 0x49u8) by (bit_vector);
    assert(genuine_intel().subrange(4, 8) =~= reg_bytes(0x49656e69u32));
    assert((0x6c65746eu32 & 0xFF) as u8 == 0x6eu8 && ((0x6c65746eu32 >> 8) & 0xFF) as u8 == 0x74u8 && ((0x6c65746eu32 >> 16) & 0xFF) as u8 == 0x65u8 && ((0x6c65746eu32 >> 24) & 0xFF) as u8 == 0x6cu8) by (bit_vector);
    assert(genuine_intel().subrange(8, 12) =~= reg_bytes(0x6c65746eu32));
    assert((0x68747541u32 & 0xFF) as u8 == 0x41u8 && ((0x68747541u32 >> 8) & 0xFF) as u8 == 0x75u8 && ((0x68747541u32 >> 16) & 0xFF) as u8 == 0x74u8 && ((0x68747541u32 >> 24) & 0xFF) as u8 == 0x68u8) by (bit_vector);
    assert(authentic_amd().subrange(0, 4) =~= reg_bytes(0x68747541u32));
    assert((0x69746e65u32 & 0xFF) as u8 == 0x65u8 && ((0x69746e65u32 >> 8) & 0xFF) as u8 == 0x6eu8 && ((0x69746e65u32 >> 16) & 0xFF) as u8 == 0x74u8 && ((0x69746e65u32 >> 24) & 0xFF) as u8 == 0x69u8) by (bit_vector);
    assert(authentic_amd().subrange(4, 8) =~= reg_bytes(0x69746e65u32));
    assert((0x444d4163u32 & 0xFF) as u8 == 0x63u8 && ((0x444d4163u32 >> 8) & 0xFF) as u8 == 0x41u8 && ((0x444d4163u32 >> 16) & 0xFF) as u8 == 0x4du8 && ((0x444d4163u32 >> 24) & 0xFF) as u8 == 0x44u8) by (bit_vector);
    assert(authentic_amd().subrange(8, 12) =~= reg_bytes(0x444d4163u32));
    lemma_signature_split(ebx, edx, ecx, genuine_intel());
    lemma_signature_split(ebx, edx, ecx, authentic_amd());
    lemma_reg_bytes_injective(ebx, 0x756e6547);
    lemma_reg_bytes_injective(edx, 0x49656e69);
    lemma_reg_bytes_injective(ecx, 0x6c65746e);
    lemma_reg_bytes_injective(ebx, 0x68747541);
    lemma_reg_bytes_injective(edx, 0x69746e65);
    lemma_reg_bytes_injective(ecx, 0x444d4163);
}

/// Detect all hardware capabilities from CPUID readings.
pub fn detect(r: &CpuidReadings) -> (caps: HwCaps)
    ensures
        caps == caps_of(*r),
        caps.apic == (r.leaf1_edx & 0x0000_0200 != 0),
        caps.sse42 == (r.leaf1_ecx & 0x0010_0000 != 0),
        caps.x2apic == (r.leaf1_ecx & 0x0020_0000 != 0),
        caps.tsc_deadline == (r.leaf1_ecx & 0x0100_0000 != 0),
        caps.rdrand == (r.leaf1_ecx & 0x4000_0000 != 0),
        caps.fsgsbase == (r.max_leaf >= 7 && r.leaf7_ebx & 1 != 0),
        caps.gigabyte_pages == (r.max_ext_leaf >= 0x8000_0001 && r.ext1_edx & 0x0400_0000 != 0),
        caps.sev == (caps.vendor == CpuVendor::Amd && r.max_ext_leaf >= 0x8000_001F && r.sev_eax & 0x2 != 0),
        caps.sev_snp == (caps.vendor == CpuVendor::Amd && r.max_ext_leaf >= 0x8000_001F && r.sev_eax & 0x10
            != 0),
        caps.tme == (caps.vendor == CpuVendor::Intel && r.max_leaf >= 7 && r.leaf7_ecx & 0x2000 != 0),
{
    proof {
        lemma_cpuid_bits(*r);
    }
    let vendor = detect_vendor(r.vendor_ebx, r.vendor_ecx, r.vendor_edx);
    let apic = test_bit(r.leaf1_edx, 9);
    let x2apic = test_bit(r.leaf1_ecx, 21);
    let tsc_deadline = test_bit(r.leaf1_ecx, 24);
    let sse42 = test_bit(r.leaf1_ecx, 20);
    let rdrand = test_bit(r.leaf1_ecx, 30);
    let fsgsbase = if r.max_leaf >= 7 {
        test_bit(r.leaf7_ebx, 0)
    } else {
        false
    };
    let gigabyte_pages = if r.max_ext_leaf >= 0x80000001 {
        test_bit(r.ext1_edx, 26)
    } else {
        false
    };
    let (sev, sev_snp) = if vendor == CpuVendor::Amd && r.max_ext_leaf >= 0x8000001F {
        (test_bit(r.sev_eax, 1), test_bit(r.sev_eax, 4))
    } else {
        (false, false)
    };
    let tme = if vendor == CpuVendor::Intel && r.max_leaf >= 7 {
        test_bit(r.leaf7_ecx, 13)
    } else {
        false
    };
    HwCaps { apic, x2apic, tsc_deadline, fsgsbase, gigabyte_pages, rdrand, sev, sev_snp, tme, sse42, vendor }
}

/// `yes` or `no`.
pub fn yn(b: bool) -> (s: &'static str)
    ensures
        s@ == if b {
            "yes"@
        } else {
            "no"@
        },
{
    if b {
        "yes"
    } else {
        "no"
    }
}

} // verus!
