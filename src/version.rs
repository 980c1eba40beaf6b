use std::cmp::Ordering;
use vstd::prelude::*;
use vstd::std_specs::cmp::PartialOrdSpec;

verus! {

/// Weight of `global` in the packed form: it fills bits 48 to 63.
pub const GLOBAL_WEIGHT: u64 = 0x1_0000_0000_0000;

/// Weight of `major` in the packed form: it fills bits 32 to 47.
pub const MAJOR_WEIGHT: u64 = 0x1_0000_0000;

/// Weight of `minor` in the packed form: it fills bits 16 to 31.
pub const MINOR_WEIGHT: u64 = 0x1_0000;

/// A version in the form of `2.33.5.14`.
///
/// Two versions are equal exactly when their four fields are equal, and they
/// are ordered by their packed 64-bit form, which is the lexicographic order
/// of `(global, major, minor, patch)`.
#[derive(Debug, Clone, Copy, PartialEq, Eq, Structural, Ord, Hash)]
pub struct Version {
    /// Pretty much always just 2.
    pub global: u16,
    pub major: u16,
    pub minor: u16,
    pub patch: u16,
}

impl Version {
    /// The packed form as a number: the four fields as the digits, most
    /// significant first, of a number in base 65536.
    pub open spec fn packed(self) -> int {
        self.global * GLOBAL_WEIGHT + self.major * MAJOR_WEIGHT + self.minor * MINOR_WEIGHT
            + self.patch
    }

    /// The version whose packed form is `value`.
    pub open spec fn unpacked(value: u64) -> Version {
        Version {
            global: (value / GLOBAL_WEIGHT) as u16,
            major: (value / MAJOR_WEIGHT % 0x1_0000) as u16,
            minor: (value / MINOR_WEIGHT % 0x1_0000) as u16,
            patch: (value % 0x1_0000) as u16,
        }
    }

    /// `self` comes strictly before `other` when the fields are compared in
    /// turn, `global` first.
    pub open spec fn lex_lt(self, other: Version) -> bool {
        ||| self.global < other.global
        ||| self.global == other.global && self.major < other.major
        ||| self.global == other.global && self.major == other.major && self.minor
            < other.minor
        ||| self.global == other.global && self.major == other.major && self.minor
            == other.minor && self.patch < other.patch
    }

    pub fn new(global: u16, major: u16, minor: u16, patch: u16) -> (r: Version)
        ensures
            r.global == global,
            r.major == major,
            r.minor == minor,
            r.patch == patch,
    {
        Version { global, major, minor, patch }
    }

    /// Packs the four fields into one integer: `global` in bits 48 to 63,
    /// `major` in bits 32 to 47, `minor` in bits 16 to 31, `patch` in bits 0
    /// to 15.
    pub fn to_u64(&self) -> (r: u64)
        ensures
            r as int == self.packed(),
    {
        proof {
            lemma_shifts_are_weights(
                self.global as u64,
                self.major as u64,
                self.minor as u64,
                self.patch as u64,
            );
        }
        ((self.global as u64) << 48) | ((self.major as u64) << 32) | ((self.minor as u64) << 16)
            | (self.patch as u64)
    }

    /// Unpacks a version from its packed form; every `u64` is the packed form
    /// of exactly one version.
    pub fn from_u64(value: u64) -> (r: Version)
        ensures
            r == Version::unpacked(value),
    {
        proof {
            lemma_masks_are_digits(value);
        }
        Version {
            global: ((value >> 48) & 0xFFFF) as u16,
            major: ((value >> 32) & 0xFFFF) as u16,
            minor: ((value >> 16) & 0xFFFF) as u16,
            patch: (value & 0xFFFF) as u16,
        }
    }
}

impl PartialOrd for Version {
    /// Compares the packed forms.
    fn partial_cmp(&self, other: &Version) -> Option<Ordering> {
        let a = self.to_u64();
        let b = other.to_u64();
        if a < b {
            Some(Ordering::Less)
        } else if a == b {
            Some(Ordering::Equal)
        } else {
            Some(Ordering::Greater)
        }
    }
}

impl vstd::std_specs::cmp::PartialOrdSpecImpl for Version {
    open spec fn obeys_partial_cmp_spec() -> bool {
        true
    }

    open spec fn partial_cmp_spec(&self, other: &Version) -> Option<Ordering> {
        if self.packed() < other.packed() {
            Some(Ordering::Less)
        } else if self.packed() == other.packed() {
            Some(Ordering::Equal)
        } else {
            Some(Ordering::Greater)
        }
    }
}

/// Packing and then unpacking gives back the version that was packed: the
/// packed form of every version fits in a `u64`, and `from_u64` undoes
/// `to_u64`.
pub proof fn lemma_unpack_after_pack(v: Version)
    ensures
        0 <= v.packed() <= u64::MAX,
        Version::unpacked(v.packed() as u64) == v,
{
    lemma_digits_of_sum(v.global as u64, v.major as u64, v.minor as u64, v.patch as u64);
}

/// Unpacking and then packing gives back the integer that was unpacked:
/// `to_u64` undoes `from_u64` on every `u64`.
pub proof fn lemma_pack_after_unpack(value: u64)
    ensures
        Version::unpacked(value).packed() == value,
{
    lemma_sum_of_digits(value);
}

/// The order of versions is the order of their packed forms, and it is the
/// lexicographic order of `(global, major, minor, patch)`; equal packed forms
/// belong to equal versions.
pub proof fn lemma_order_is_packed_order(a: Version, b: Version)
    ensures
        a.partial_cmp_spec(&b) == Some(Ordering::Less) <==> a.packed() < b.packed(),
        a.partial_cmp_spec(&b) == Some(Ordering::Less) <==> a.lex_lt(b),
        a.partial_cmp_spec(&b) == Some(Ordering::Equal) <==> a == b,
        a.partial_cmp_spec(&b) == Some(Ordering::Greater) <==> b.lex_lt(a),
{
}

/// Raising one field by one, with the fields above it unchanged, gives a
/// strictly greater version, whatever the fields below it become.
pub proof fn lemma_raising_a_field_raises_the_version(v: Version, w: Version)
    ensures
        w.global == v.global && w.major == v.major && w.minor == v.minor && w.patch == v.patch
            + 1 ==> v.partial_cmp_spec(&w) == Some(Ordering::Less),
        w.global == v.global && w.major == v.major && w.minor == v.minor + 1 ==> v.partial_cmp_spec(
            &w,
        ) == Some(Ordering::Less),
        w.global == v.global && w.major == v.major + 1 ==> v.partial_cmp_spec(&w) == Some(
            Ordering::Less,
        ),
        w.global == v.global + 1 ==> v.partial_cmp_spec(&w) == Some(Ordering::Less),
{
}

proof fn lemma_digits_of_sum(global: u64, major: u64, minor: u64, patch: u64)
    by (bit_vector)
    requires
        global < 0x1_0000,
        major < 0x1_0000,
        minor < 0x1_0000,
        patch < 0x1_0000,
    ensures
        global * 0x1_0000_0000_0000 + major * 0x1_0000_0000 + minor * 0x1_0000 + patch
            <= 0xFFFF_FFFF_FFFF_FFFF,
        (global * 0x1_0000_0000_0000 + major * 0x1_0000_0000 + minor * 0x1_0000 + patch)
            / 0x1_0000_0000_0000 == global,
        (global * 0x1_0000_0000_0000 + major * 0x1_0000_0000 + minor * 0x1_0000 + patch)
            / 0x1_0000_0000 % 0x1_0000 == major,
        (global * 0x1_0000_0000_0000 + major * 0x1_0000_0000 + minor * 0x1_0000 + patch)
            / 0x1_0000 % 0x1_0000 == minor,
        (global * 0x1_0000_0000_0000 + major * 0x1_0000_0000 + minor * 0x1_0000 + patch)
            % 0x1_0000 == patch,
{
}

proof fn lemma_sum_of_digits(value: u64)
    by (bit_vector)
    ensures
        value / 0x1_0000_0000_0000 < 0x1_0000,
        value / 0x1_0000_0000_0000 * 0x1_0000_0000_0000 + value / 0x1_0000_0000 % 0x1_0000
            * 0x1_0000_0000 + value / 0x1_0000 % 0x1_0000 * 0x1_0000 + value % 0x1_0000 == value,
{
}

proof fn lemma_shifts_are_weights(global: u64, major: u64, minor: u64, patch: u64)
    by (bit_vector)
    requires
        global < 0x1_0000,
        major < 0x1_0000,
        minor < 0x1_0000,
        patch < 0x1_0000,
    ensures
        (global << 48) | (major << 32) | (minor << 16) | patch == global * 0x1_0000_0000_0000u64
            + major * 0x1_0000_0000u64 + minor * 0x1_0000u64 + patch,
{
}

proof fn lemma_masks_are_digits(value: u64)
    by (bit_vector)
    ensures
        (value >> 48) & 0xFFFF == value / 0x1_0000_0000_0000u64,
        (value >> 32) & 0xFFFF == value / 0x1_0000_0000u64 % 0x1_0000u64,
        (value >> 16) & 0xFFFF == value / 0x1_0000u64 % 0x1_0000u64,
        value & 0xFFFF == value % 0x1_0000u64,
{
}

} // verus!
