//! A fixed-width bitset over the access and quality flags a runtime reports
//! for a type, with named composite masks per declaration context and both
//! typed and raw-integer predicate forms.

use vstd::prelude::*;

verus! {

pub const PUBLIC: u16 = 0x0001;
pub const PRIVATE: u16 = 0x0002;
pub const PROTECTED: u16 = 0x0004;
pub const STATIC: u16 = 0x0008;
pub const FINAL: u16 = 0x0010;
pub const SYNCHRONIZED: u16 = 0x0020;
pub const VOLATILE: u16 = 0x0040;
pub const TRANSIENT: u16 = 0x0080;
pub const NATIVE: u16 = 0x0100;
pub const INTERFACE: u16 = 0x0200;
pub const ABSTRACT: u16 = 0x0400;
pub const STRICT: u16 = 0x0800;

// Flags that share bit positions with field or method flags, or are not
// source-language keywords.
pub const BRIDGE: u16 = 0x0040;
pub const VARARGS: u16 = 0x0080;
pub const SYNTHETIC: u16 = 0x1000;
pub const ANNOTATION: u16 = 0x2000;
pub const ENUM: u16 = 0x4000;
pub const MANDATED: u16 = 0x8000;

// Composite masks for the flags each declaration context may carry.
pub const CLASS_MODIFIERS: u16 = PUBLIC | PROTECTED | PRIVATE | STATIC | FINAL | ABSTRACT
    | STRICT;
pub const INTERFACE_MODIFIERS: u16 = PUBLIC | PROTECTED | PRIVATE | STATIC | ABSTRACT | STRICT;
pub const CONSTRUCTOR_MODIFIERS: u16 = PUBLIC | PROTECTED | PRIVATE;
pub const METHOD_MODIFIERS: u16 = PUBLIC | PROTECTED | PRIVATE | STATIC | FINAL | ABSTRACT
    | NATIVE | SYNCHRONIZED | STRICT;
pub const FIELD_MODIFIERS: u16 = PUBLIC | PROTECTED | PRIVATE | STATIC | FINAL | TRANSIENT
    | VOLATILE;
pub const PARAMETER_MODIFIERS: u16 = FINAL;
pub const ACCESS_MODIFIERS: u16 = PUBLIC | PROTECTED | PRIVATE;

/// Whether `bits` has every flag of `flag` set.
pub open spec fn spec_has_flag(bits: u16, flag: u16) -> bool {
    bits & flag == flag
}

/// A typed view over a raw modifier bitset.
#[derive(Clone, Copy, Debug, PartialEq, Eq, Structural)]
pub struct Modifiers {
    bits: u16,
}

impl Modifiers {
    pub closed spec fn spec_bits(&self) -> u16 {
        self.bits
    }

    pub fn new(bits: u16) -> (r: Self)
        ensures
            r.spec_bits() == bits,
    {
        Modifiers { bits }
    }

    pub fn bits(&self) -> (r: u16)
        ensures
            r == self.spec_bits(),
    {
        self.bits
    }

    pub fn is_public(&self) -> (r: bool)
        ensures
            r == spec_has_flag(self.spec_bits(), PUBLIC),
    {
        Self::is_public_bits(self.bits)
    }

    pub fn is_private(&self) -> (r: bool)
        ensures
            r == spec_has_flag(self.spec_bits(), PRIVATE),
    {
        Self::is_private_bits(self.bits)
    }

    pub fn is_protected(&self) -> (r: bool)
        ensures
            r == spec_has_flag(self.spec_bits(), PROTECTED),
    {
        Self::is_protected_bits(self.bits)
    }

    pub fn is_static(&self) -> (r: bool)
        ensures
            r == spec_has_flag(self.spec_bits(), STATIC),
    {
        Self::is_static_bits(self.bits)
    }

    pub fn is_final(&self) -> (r: bool)
        ensures
            r == spec_has_flag(self.spec_bits(), FINAL),
    {
        Self::is_final_bits(self.bits)
    }

    pub fn is_synchronized(&self) -> (r: bool)
        ensures
            r == spec_has_flag(self.spec_bits(), SYNCHRONIZED),
    {
        Self::is_synchronized_bits(self.bits)
    }

    pub fn is_volatile(&self) -> (r: bool)
        ensures
            r == spec_has_flag(self.spec_bits(), VOLATILE),
    {
        Self::is_volatile_bits(self.bits)
    }

    pub fn is_transient(&self) -> (r: bool)
        ensures
            r == spec_has_flag(self.spec_bits(), TRANSIENT),
    {
        Self::is_transient_bits(self.bits)
    }

    pub fn is_native(&self) -> (r: bool)
        ensures
            r == spec_has_flag(self.spec_bits(), NATIVE),
    {
        Self::is_native_bits(self.bits)
    }

    pub fn is_interface(&self) -> (r: bool)
        ensures
            r == spec_has_flag(self.spec_bits(), INTERFACE),
    {
        Self::is_interface_bits(self.bits)
    }

    pub fn is_abstract(&self) -> (r: bool)
        ensures
            r == spec_has_flag(self.spec_bits(), ABSTRACT),
    {
        Self::is_abstract_bits(self.bits)
    }

    pub fn is_strict(&self) -> (r: bool)
        ensures
            r == spec_has_flag(self.spec_bits(), STRICT),
    {
        Self::is_strict_bits(self.bits)
    }

    pub fn is_bridge(&self) -> (r: bool)
        ensures
            r == spec_has_flag(self.spec_bits(), BRIDGE),
    {
        Self::is_bridge_bits(self.bits)
    }

    pub fn is_varargs(&self) -> (r: bool)
        ensures
            r == spec_has_flag(self.spec_bits(), VARARGS),
    {
        Self::is_varargs_bits(self.bits)
    }

    pub fn is_synthetic(&self) -> (r: bool)
        ensures
            r == spec_has_flag(self.spec_bits(), SYNTHETIC),
    {
        Self::is_synthetic_bits(self.bits)
    }

    pub fn is_annotation(&self) -> (r: bool)
        ensures
            r == spec_has_flag(self.spec_bits(), ANNOTATION),
    {
        Self::is_annotation_bits(self.bits)
    }

    pub fn is_enum(&self) -> (r: bool)
        ensures
            r == spec_has_flag(self.spec_bits(), ENUM),
    {
        Self::is_enum_bits(self.bits)
    }

    pub fn is_mandated(&self) -> (r: bool)
        ensures
            r == spec_has_flag(self.spec_bits(), MANDATED),
    {
        Self::is_mandated_bits(self.bits)
    }

    pub fn is_public_bits(bits: u16) -> (r: bool)
        ensures
            r == spec_has_flag(bits, PUBLIC),
    {
        bits & PUBLIC == PUBLIC
    }

    pub fn is_private_bits(bits: u16) -> (r: bool)
        ensures
            r == spec_has_flag(bits, PRIVATE),
    {
        bits & PRIVATE == PRIVATE
    }

    pub fn is_protected_bits(bits: u16) -> (r: bool)
        ensures
            r == spec_has_flag(bits, PROTECTED),
    {
        bits & PROTECTED == PROTECTED
    }

    pub fn is_static_bits(bits: u16) -> (r: bool)
        ensures
            r == spec_has_flag(bits, STATIC),
    {
        bits & STATIC == STATIC
    }

    pub fn is_final_bits(bits: u16) -> (r: bool)
        ensures
            r == spec_has_flag(bits, FINAL),
    {
        bits & FINAL == FINAL
    }

    pub fn is_synchronized_bits(bits: u16) -> (r: bool)
        ensures
            r == spec_has_flag(bits, SYNCHRONIZED),
    {
        bits & SYNCHRONIZED == SYNCHRONIZED
    }

    pub fn is_volatile_bits(bits: u16) -> (r: bool)
        ensures
            r == spec_has_flag(bits, VOLATILE),
    {
        bits & VOLATILE == VOLATILE
    }

    pub fn is_transient_bits(bits: u16) -> (r: bool)
        ensures
            r == spec_has_flag(bits, TRANSIENT),
    {
        bits & TRANSIENT == TRANSIENT
    }

    pub fn is_native_bits(bits: u16) -> (r: bool)
        ensures
            r == spec_has_flag(bits, NATIVE),
    {
        bits & NATIVE == NATIVE
    }

    pub fn is_interface_bits(bits: u16) -> (r: bool)
        ensures
            r == spec_has_flag(bits, INTERFACE),
    {
        bits & INTERFACE == INTERFACE
    }

    pub fn is_abstract_bits(bits: u16) -> (r: bool)
        ensures
            r == spec_has_flag(bits, ABSTRACT),
    {
        bits & ABSTRACT == ABSTRACT
    }

    pub fn is_strict_bits(bits: u16) -> (r: bool)
        ensures
            r == spec_has_flag(bits, STRICT),
    {
        bits & STRICT == STRICT
    }

    pub fn is_bridge_bits(bits: u16) -> (r: bool)
        ensures
            r == spec_has_flag(bits, BRIDGE),
    {
        bits & BRIDGE == BRIDGE
    }

    pub fn is_varargs_bits(bits: u16) -> (r: bool)
        ensures
            r == spec_has_flag(bits, VARARGS),
    {
        bits & VARARGS == VARARGS
    }

    pub fn is_synthetic_bits(bits: u16) -> (r: bool)
        ensures
            r == spec_has_flag(bits, SYNTHETIC),
    {
        bits & SYNTHETIC == SYNTHETIC
    }

    pub fn is_annotation_bits(bits: u16) -> (r: bool)
        ensures
            r == spec_has_flag(bits, ANNOTATION),
    {
        bits & ANNOTATION == ANNOTATION
    }

    pub fn is_enum_bits(bits: u16) -> (r: bool)
        ensures
            r == spec_has_flag(bits, ENUM),
    {
        bits & ENUM == ENUM
    }

    pub fn is_mandated_bits(bits: u16) -> (r: bool)
        ensures
            r == spec_has_flag(bits, MANDATED),
    {
        bits & MANDATED == MANDATED
    }
}

} // verus!
