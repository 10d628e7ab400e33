//! Two flag sets over different backing integers: `Permissions` (`u8`) and
//! `FileMode` (`u16`), with set operations and their textual forms.

use vstd::prelude::*;
use vstd::std_specs::ops::{BitAndSpec, BitAndSpecImpl, BitOrSpec, BitOrSpecImpl, NotSpec, NotSpecImpl};
use crate::text::push_str;

verus! {

/// Whether each named flag is set, paired with its name.
pub open spec fn any_set(fs: Seq<(bool, Seq<char>)>) -> bool
    decreases fs.len(),
{
    if fs.len() == 0 {
        false
    } else {
        fs.last().0 || any_set(fs.drop_last())
    }
}

/// The names of the set flags, in order, separated by ` | `.
pub open spec fn joined(fs: Seq<(bool, Seq<char>)>) -> Seq<char>
    decreases fs.len(),
{
    if fs.len() == 0 {
        seq![]
    } else if !fs.last().0 {
        joined(fs.drop_last())
    } else if any_set(fs.drop_last()) {
        joined(fs.drop_last()) + " | "@ + fs.last().1
    } else {
        fs.last().1
    }
}

/// `v` written with `width` binary digits, most significant first.
pub open spec fn binary(v: nat, width: nat) -> Seq<char>
    decreases width,
{
    if width == 0 {
        seq![]
    } else {
        binary(v / 2, (width - 1) as nat).push(if v % 2 == 1 { '1' } else { '0' })
    }
}

/// `(empty)` for no bits, else the names of the set flags, else the bits in
/// binary (`{:#0w$b}` in parentheses) when no named flag is set.
pub open spec fn flags_text(bits: nat, fs: Seq<(bool, Seq<char>)>, width: nat) -> Seq<char> {
    if bits == 0 {
        "(empty)"@
    } else if any_set(fs) {
        joined(fs)
    } else {
        "("@ + "0b"@ + binary(bits, width) + ")"@
    }
}

/// The view of the flag list as plain values.
pub open spec fn flag_view(fs: Seq<(bool, &'static str)>) -> Seq<(bool, Seq<char>)> {
    fs.map_values(|f: (bool, &'static str)| (f.0, f.1@))
}

proof fn lemma_joined_step(fs: Seq<(bool, Seq<char>)>, k: int)
    requires
        0 <= k < fs.len(),
    ensures
        any_set(fs.take(k + 1)) == (fs[k].0 || any_set(fs.take(k))),
        joined(fs.take(k + 1)) == if !fs[k].0 {
            joined(fs.take(k))
        } else if any_set(fs.take(k)) {
            joined(fs.take(k)) + " | "@ + fs[k].1
        } else {
            fs[k].1
        },
{
    let post = fs.take(k + 1);
    assert(post.drop_last() =~= fs.take(k));
    assert(post.last() == fs[k]);
}

proof fn lemma_joined_none(fs: Seq<(bool, Seq<char>)>)
    requires
        !any_set(fs),
    ensures
        joined(fs) == Seq::<char>::empty(),
    decreases fs.len(),
{
    if fs.len() > 0 {
        lemma_joined_none(fs.drop_last());
    }
}

fn push_binary(out: &mut String, v: u64, width: u64)
    ensures
        final(out)@ == old(out)@ + binary(v as nat, width as nat),
    decreases width,
{
    if width > 0 {
        push_binary(out, v / 2, width - 1);
        if v % 2 == 1 {
            out.push('1');
        } else {
            out.push('0');
        }
    }
}

fn text_of_flags(bits: u64, fs: &Vec<(bool, &'static str)>, width: u64) -> (r: String)
    ensures
        r@ == flags_text(bits as nat, flag_view(fs@), width as nat),
{
    let mut out = String::new();
    if bits == 0 {
        push_str(&mut out, "(empty)");
        return out;
    }
    let mut any = false;
    let mut k: usize = 0;
    while k < fs.len()
        invariant
            k <= fs.len(),
            any == any_set(flag_view(fs@).take(k as int)),
            out@ == joined(flag_view(fs@).take(k as int)),
        decreases fs.len() - k,
    {
        proof {
            lemma_joined_step(flag_view(fs@), k as int);
            assert(flag_view(fs@)[k as int] == (fs@[k as int].0, fs@[k as int].1@));
        }
        let ghost before = out@;
        proof {
            if !any {
                lemma_joined_none(flag_view(fs@).take(k as int));
            }
        }
        if fs[k].0 {
            if any {
                push_str(&mut out, " | ");
            }
            let name: &'static str = fs[k].1;
            assert(name@ == fs@[k as int].1@);
            push_str(&mut out, name);
            any = true;
        }
        k = k + 1;
    }
    assert(flag_view(fs@).take(fs.len() as int) =~= flag_view(fs@));
    if !any {
        proof { lemma_joined_none(flag_view(fs@)); }
        push_str(&mut out, "(");
        push_str(&mut out, "0b");
        push_binary(&mut out, bits, width);
        push_str(&mut out, ")");
    }
    out
}

/// Debug form: the type name and the bits, as `Name(0b…)`.
pub open spec fn debug_text(name: Seq<char>, bits: nat, width: nat) -> Seq<char> {
    name + "("@ + "0b"@ + binary(bits, width) + ")"@
}

fn debug_of(name: &'static str, bits: u64, width: u64) -> (r: String)
    ensures
        r@ == debug_text(name@, bits as nat, width as nat),
{
    let mut out = String::new();
    push_str(&mut out, name);
    push_str(&mut out, "(");
    push_str(&mut out, "0b");
    push_binary(&mut out, bits, width);
    push_str(&mut out, ")");
    out
}

// ------------------------------------------------------------------
// Permissions: u8
// ------------------------------------------------------------------

/// Read, write, execute and delete permissions as bits of a `u8`.
#[derive(Clone, Copy, PartialEq, Eq, Structural)]
pub struct Permissions(pub u8);

/// The named flags of `Permissions`, with whether `b` holds each.
pub open spec fn permission_flags(b: u8) -> Seq<(bool, Seq<char>)> {
    seq![
        (b & 1 == 1, "READ"@),
        (b & 2 == 2, "WRITE"@),
        (b & 4 == 4, "EXECUTE"@),
        (b & 8 == 8, "DELETE"@),
    ]
}

impl Permissions {
    #[allow(non_snake_case)]
    pub fn READ() -> (r: Self)
        ensures
            r.0 == 0b0001,
    {
        Permissions(0b0001)
    }

    #[allow(non_snake_case)]
    pub fn WRITE() -> (r: Self)
        ensures
            r.0 == 0b0010,
    {
        Permissions(0b0010)
    }

    #[allow(non_snake_case)]
    pub fn EXECUTE() -> (r: Self)
        ensures
            r.0 == 0b0100,
    {
        Permissions(0b0100)
    }

    #[allow(non_snake_case)]
    pub fn DELETE() -> (r: Self)
        ensures
            r.0 == 0b1000,
    {
        Permissions(0b1000)
    }


    pub fn empty() -> (r: Self)
        ensures
            r.0 == 0,
    {
        Permissions(0)
    }

    /// Every named flag.
    pub fn all() -> (r: Self)
        ensures
            r.0 == 0b1111,
    {
        assert((0u8 | 1u8 | 2u8 | 4u8 | 8u8) == 15u8) by (bit_vector);
        Permissions(0 | 0b0001 | 0b0010 | 0b0100 | 0b1000)
    }

    /// Every bit of `other` is set in `self`.
    pub fn contains(self, other: Self) -> (r: bool)
        ensures
            r == (self.0 & other.0 == other.0),
    {
        (self.0 & other.0) == other.0
    }

    pub fn insert(&mut self, other: Self)
        ensures
            final(self).0 == old(self).0 | other.0,
    {
        self.0 = self.0 | other.0;
    }

    pub fn remove(&mut self, other: Self)
        ensures
            final(self).0 == old(self).0 & !other.0,
    {
        self.0 = self.0 & !other.0;
    }

    pub fn toggle(&mut self, other: Self)
        ensures
            final(self).0 == old(self).0 ^ other.0,
    {
        self.0 = self.0 ^ other.0;
    }

    pub fn is_empty(self) -> (r: bool)
        ensures
            r == (self.0 == 0),
    {
        self.0 == 0
    }

    pub fn bits(self) -> (r: u8)
        ensures
            r == self.0,
    {
        self.0
    }

    /// The set flags by name, `(empty)` when none is set, and the bits in
    /// binary when only unnamed bits are set.
    pub fn display(self) -> (s: String)
        ensures
            s@ == flags_text(self.0 as nat, permission_flags(self.0), 8),
    {
        let b = self.0;
        let mut fs: Vec<(bool, &'static str)> = Vec::new();
        fs.push((b & 1 == 1, "READ"));
        fs.push((b & 2 == 2, "WRITE"));
        fs.push((b & 4 == 4, "EXECUTE"));
        fs.push((b & 8 == 8, "DELETE"));
        assert(flag_view(fs@) =~= permission_flags(b));
        text_of_flags(b as u64, &fs, 8)
    }

    /// `Permissions(0b…)` with eight binary digits.
    pub fn debug(self) -> (s: String)
        ensures
            s@ == debug_text("Permissions"@, self.0 as nat, 8),
    {
        debug_of("Permissions", self.0 as u64, 8)
    }
}

impl core::ops::BitOr for Permissions {
    type Output = Self;

    fn bitor(self, rhs: Self) -> (r: Self) {
        Permissions(self.0 | rhs.0)
    }
}

impl BitOrSpecImpl for Permissions {
    open spec fn obeys_bitor_spec() -> bool {
        true
    }

    open spec fn bitor_req(self, rhs: Self) -> bool {
        true
    }

    open spec fn bitor_spec(self, rhs: Self) -> Self {
        Permissions(self.0 | rhs.0)
    }
}

impl core::ops::BitAnd for Permissions {
    type Output = Self;

    fn bitand(self, rhs: Self) -> (r: Self) {
        Permissions(self.0 & rhs.0)
    }
}

impl BitAndSpecImpl for Permissions {
    open spec fn obeys_bitand_spec() -> bool {
        true
    }

    open spec fn bitand_req(self, rhs: Self) -> bool {
        true
    }

    open spec fn bitand_spec(self, rhs: Self) -> Self {
        Permissions(self.0 & rhs.0)
    }
}

impl core::ops::Not for Permissions {
    type Output = Self;

    fn not(self) -> (r: Self) {
        Permissions(!self.0)
    }
}

impl NotSpecImpl for Permissions {
    open spec fn obeys_not_spec() -> bool {
        true
    }

    open spec fn not_req(self) -> bool {
        true
    }

    open spec fn not_spec(self) -> Self {
        Permissions(!self.0)
    }
}

/// Inserting flags makes the set contain them.
pub proof fn law_permissions_insert_contains(a: Permissions, b: Permissions)
    ensures
        ((a.0 | b.0) & b.0) == b.0,
{
    let (x, y) = (a.0, b.0);
    assert(((x | y) & y) == y) by (bit_vector);
}

/// After removing flags the set holds none of their bits.
pub proof fn law_permissions_remove_excludes(a: Permissions, b: Permissions)
    ensures
        ((a.0 & !b.0) & b.0) == 0,
        ((a.0 & !b.0) & b.0 == b.0) <==> b.0 == 0,
{
    let (x, y) = (a.0, b.0);
    assert(((x & !y) & y) == 0) by (bit_vector);
}

/// Toggling the same flags twice restores the set.
pub proof fn law_permissions_toggle_twice(a: Permissions, b: Permissions)
    ensures
        ((a.0 ^ b.0) ^ b.0) == a.0,
{
    let (x, y) = (a.0, b.0);
    assert(((x ^ y) ^ y) == x) by (bit_vector);
}

/// Union and intersection do not depend on the order of their operands.
pub proof fn law_permissions_commute(a: Permissions, b: Permissions)
    ensures
        (a.0 | b.0) == (b.0 | a.0),
        (a.0 & b.0) == (b.0 & a.0),
{
    let (x, y) = (a.0, b.0);
    assert((x | y) == (y | x)) by (bit_vector);
    assert((x & y) == (y & x)) by (bit_vector);
}

/// Every set contains the empty set; the set of all flags contains each
/// named flag.
pub proof fn law_permissions_empty_and_all(a: Permissions)
    ensures
        (a.0 & 0) == 0,
        (15u8 & 1) == 1 && (15u8 & 2) == 2 && (15u8 & 4) == 4 && (15u8 & 8) == 8,
{
    let x = a.0;
    assert((x & 0) == 0) by (bit_vector);
    assert((15u8 & 1) == 1 && (15u8 & 2) == 2 && (15u8 & 4) == 4 && (15u8 & 8) == 8) by (bit_vector);
}

/// `a | b` holds every flag of `a` and every flag of `b`, and is the
/// smallest set that does: a set holding both holds the union.
pub proof fn law_permissions_union_is_least_upper_bound(a: Permissions, b: Permissions, c: Permissions)
    ensures
        BitOrSpec::bitor_spec(a, b).0 & a.0 == a.0,
        BitOrSpec::bitor_spec(a, b).0 & b.0 == b.0,
        c.0 & a.0 == a.0 && c.0 & b.0 == b.0 ==> c.0 & BitOrSpec::bitor_spec(a, b).0 == BitOrSpec::bitor_spec(a, b).0,
{
    let (x, y, z) = (a.0, b.0, c.0);
    assert((x | y) & x == x && (x | y) & y == y) by (bit_vector);
    assert(z & x == x && z & y == y ==> z & (x | y) == (x | y)) by (bit_vector);
}

/// `a & b` is held by both `a` and `b`, and is the largest set that is: a
/// set held by both is held by the intersection.
pub proof fn law_permissions_intersection_is_greatest_lower_bound(a: Permissions, b: Permissions, c: Permissions)
    ensures
        a.0 & BitAndSpec::bitand_spec(a, b).0 == BitAndSpec::bitand_spec(a, b).0,
        b.0 & BitAndSpec::bitand_spec(a, b).0 == BitAndSpec::bitand_spec(a, b).0,
        a.0 & c.0 == c.0 && b.0 & c.0 == c.0 ==> BitAndSpec::bitand_spec(a, b).0 & c.0 == c.0,
{
    let (x, y, z) = (a.0, b.0, c.0);
    assert(x & (x & y) == (x & y) && y & (x & y) == (x & y)) by (bit_vector);
    assert(x & z == z && y & z == z ==> (x & y) & z == z) by (bit_vector);
}

/// `!a` shares no bit with `a`, and the two together hold every bit.
pub proof fn law_permissions_complement(a: Permissions)
    ensures
        NotSpec::not_spec(a).0 & a.0 == 0,
        NotSpec::not_spec(a).0 | a.0 == 0xffu8,
{
    let x = a.0;
    assert(!x & x == 0 && (!x | x) == 0xffu8) by (bit_vector);
}

// ------------------------------------------------------------------
// FileMode: u16
// ------------------------------------------------------------------

/// Unix owner, group and other read, write and execute bits as a `u16`.
#[derive(Clone, Copy, PartialEq, Eq, Structural)]
pub struct FileMode(pub u16);

/// The named flags of `FileMode`, with whether `b` holds each.
pub open spec fn file_mode_flags(b: u16) -> Seq<(bool, Seq<char>)> {
    seq![
        (b & 256 == 256, "OWNER_READ"@),
        (b & 128 == 128, "OWNER_WRITE"@),
        (b & 64 == 64, "OWNER_EXEC"@),
        (b & 32 == 32, "GROUP_READ"@),
        (b & 16 == 16, "GROUP_WRITE"@),
        (b & 8 == 8, "GROUP_EXEC"@),
        (b & 4 == 4, "OTHER_READ"@),
        (b & 2 == 2, "OTHER_WRITE"@),
        (b & 1 == 1, "OTHER_EXEC"@),
    ]
}

impl FileMode {
    #[allow(non_snake_case)]
    pub fn OWNER_READ() -> (r: Self)
        ensures
            r.0 == 256,
    {
        FileMode(0o400)
    }

    #[allow(non_snake_case)]
    pub fn OWNER_WRITE() -> (r: Self)
        ensures
            r.0 == 128,
    {
        FileMode(0o200)
    }

    #[allow(non_snake_case)]
    pub fn OWNER_EXEC() -> (r: Self)
        ensures
            r.0 == 64,
    {
        FileMode(0o100)
    }

    #[allow(non_snake_case)]
    pub fn GROUP_READ() -> (r: Self)
        ensures
            r.0 == 32,
    {
        FileMode(0o040)
    }

    #[allow(non_snake_case)]
    pub fn GROUP_WRITE() -> (r: Self)
        ensures
            r.0 == 16,
    {
        FileMode(0o020)
    }

    #[allow(non_snake_case)]
    pub fn GROUP_EXEC() -> (r: Self)
        ensures
            r.0 == 8,
    {
        FileMode(0o010)
    }

    #[allow(non_snake_case)]
    pub fn OTHER_READ() -> (r: Self)
        ensures
            r.0 == 4,
    {
        FileMode(0o004)
    }

    #[allow(non_snake_case)]
    pub fn OTHER_WRITE() -> (r: Self)
        ensures
            r.0 == 2,
    {
        FileMode(0o002)
    }

    #[allow(non_snake_case)]
    pub fn OTHER_EXEC() -> (r: Self)
        ensures
            r.0 == 1,
    {
        FileMode(0o001)
    }

    pub fn empty() -> (r: Self)
        ensures
            r.0 == 0,
    {
        FileMode(0)
    }

    /// Every named flag.
    pub fn all() -> (r: Self)
        ensures
            r.0 == 0o777,
    {
        assert((0u16 | 256u16 | 128u16 | 64u16 | 32u16 | 16u16 | 8u16 | 4u16 | 2u16 | 1u16) == 511u16) by (bit_vector);
        FileMode(0 | 0o400 | 0o200 | 0o100 | 0o040 | 0o020 | 0o010 | 0o004 | 0o002 | 0o001)
    }

    /// Every bit of `other` is set in `self`.
    pub fn contains(self, other: Self) -> (r: bool)
        ensures
            r == (self.0 & other.0 == other.0),
    {
        (self.0 & other.0) == other.0
    }

    pub fn insert(&mut self, other: Self)
        ensures
            final(self).0 == old(self).0 | other.0,
    {
        self.0 = self.0 | other.0;
    }

    pub fn remove(&mut self, other: Self)
        ensures
            final(self).0 == old(self).0 & !other.0,
    {
        self.0 = self.0 & !other.0;
    }

    pub fn toggle(&mut self, other: Self)
        ensures
            final(self).0 == old(self).0 ^ other.0,
    {
        self.0 = self.0 ^ other.0;
    }

    pub fn is_empty(self) -> (r: bool)
        ensures
            r == (self.0 == 0),
    {
        self.0 == 0
    }

    pub fn bits(self) -> (r: u16)
        ensures
            r == self.0,
    {
        self.0
    }

    /// The set flags by name, `(empty)` when none is set, and the bits in
    /// binary when only unnamed bits are set.
    pub fn display(self) -> (s: String)
        ensures
            s@ == flags_text(self.0 as nat, file_mode_flags(self.0), 16),
    {
        let b = self.0;
        let mut fs: Vec<(bool, &'static str)> = Vec::new();
        fs.push((b & 256 == 256, "OWNER_READ"));
        fs.push((b & 128 == 128, "OWNER_WRITE"));
        fs.push((b & 64 == 64, "OWNER_EXEC"));
        fs.push((b & 32 == 32, "GROUP_READ"));
        fs.push((b & 16 == 16, "GROUP_WRITE"));
        fs.push((b & 8 == 8, "GROUP_EXEC"));
        fs.push((b & 4 == 4, "OTHER_READ"));
        fs.push((b & 2 == 2, "OTHER_WRITE"));
        fs.push((b & 1 == 1, "OTHER_EXEC"));
        assert(flag_view(fs@) =~= file_mode_flags(b));
        text_of_flags(b as u64, &fs, 16)
    }

    /// `FileMode(0b…)` with sixteen binary digits.
    pub fn debug(self) -> (s: String)
        ensures
            s@ == debug_text("FileMode"@, self.0 as nat, 16),
    {
        debug_of("FileMode", self.0 as u64, 16)
    }
}

impl core::ops::BitOr for FileMode {
    type Output = Self;

    fn bitor(self, rhs: Self) -> (r: Self) {
        FileMode(self.0 | rhs.0)
    }
}

impl BitOrSpecImpl for FileMode {
    open spec fn obeys_bitor_spec() -> bool {
        true
    }

    open spec fn bitor_req(self, rhs: Self) -> bool {
        true
    }

    open spec fn bitor_spec(self, rhs: Self) -> Self {
        FileMode(self.0 | rhs.0)
    }
}

impl core::ops::BitAnd for FileMode {
    type Output = Self;

    fn bitand(self, rhs: Self) -> (r: Self) {
        FileMode(self.0 & rhs.0)
    }
}

impl BitAndSpecImpl for FileMode {
    open spec fn obeys_bitand_spec() -> bool {
        true
    }

    open spec fn bitand_req(self, rhs: Self) -> bool {
        true
    }

    open spec fn bitand_spec(self, rhs: Self) -> Self {
        FileMode(self.0 & rhs.0)
    }
}

impl core::ops::Not for FileMode {
    type Output = Self;

    fn not(self) -> (r: Self) {
        FileMode(!self.0)
    }
}

impl NotSpecImpl for FileMode {
    open spec fn obeys_not_spec() -> bool {
        true
    }

    open spec fn not_req(self) -> bool {
        true
    }

    open spec fn not_spec(self) -> Self {
        FileMode(!self.0)
    }
}

/// Inserting flags makes the set contain them.
pub proof fn law_file_mode_insert_contains(a: FileMode, b: FileMode)
    ensures
        ((a.0 | b.0) & b.0) == b.0,
{
    let (x, y) = (a.0, b.0);
    assert(((x | y) & y) == y) by (bit_vector);
}

/// After removing flags the set holds none of their bits.
pub proof fn law_file_mode_remove_excludes(a: FileMode, b: FileMode)
    ensures
        ((a.0 & !b.0) & b.0) == 0,
        ((a.0 & !b.0) & b.0 == b.0) <==> b.0 == 0,
{
    let (x, y) = (a.0, b.0);
    assert(((x & !y) & y) == 0) by (bit_vector);
}

/// Toggling the same flags twice restores the set.
pub proof fn law_file_mode_toggle_twice(a: FileMode, b: FileMode)
    ensures
        ((a.0 ^ b.0) ^ b.0) == a.0,
{
    let (x, y) = (a.0, b.0);
    assert(((x ^ y) ^ y) == x) by (bit_vector);
}

/// Union and intersection do not depend on the order of their operands.
pub proof fn law_file_mode_commute(a: FileMode, b: FileMode)
    ensures
        (a.0 | b.0) == (b.0 | a.0),
        (a.0 & b.0) == (b.0 & a.0),
{
    let (x, y) = (a.0, b.0);
    assert((x | y) == (y | x)) by (bit_vector);
    assert((x & y) == (y & x)) by (bit_vector);
}

/// Every set contains the empty set; the set of all flags contains each
/// named flag.
pub proof fn law_file_mode_empty_and_all(a: FileMode)
    ensures
        (a.0 & 0) == 0,
        forall|f: u16| f == 256 || f == 128 || f == 64 || f == 32 || f == 16 || f == 8 || f == 4 || f == 2 || f == 1 ==> (511u16 & f) == f,
{
    let x = a.0;
    assert((x & 0) == 0) by (bit_vector);
    assert forall|f: u16| f == 256 || f == 128 || f == 64 || f == 32 || f == 16 || f == 8 || f == 4 || f == 2 || f == 1 implies (511u16 & f) == f by {
        assert(f == 256 || f == 128 || f == 64 || f == 32 || f == 16 || f == 8 || f == 4 || f == 2 || f == 1 ==> (511u16 & f) == f) by (bit_vector);
    }
}

/// `a | b` holds every flag of `a` and every flag of `b`, and is the
/// smallest set that does: a set holding both holds the union.
pub proof fn law_file_mode_union_is_least_upper_bound(a: FileMode, b: FileMode, c: FileMode)
    ensures
        BitOrSpec::bitor_spec(a, b).0 & a.0 == a.0,
        BitOrSpec::bitor_spec(a, b).0 & b.0 == b.0,
        c.0 & a.0 == a.0 && c.0 & b.0 == b.0 ==> c.0 & BitOrSpec::bitor_spec(a, b).0 == BitOrSpec::bitor_spec(a, b).0,
{
    let (x, y, z) = (a.0, b.0, c.0);
    assert((x | y) & x == x && (x | y) & y == y) by (bit_vector);
    assert(z & x == x && z & y == y ==> z & (x | y) == (x | y)) by (bit_vector);
}

/// `a & b` is held by both `a` and `b`, and is the largest set that is: a
/// set held by both is held by the intersection.
pub proof fn law_file_mode_intersection_is_greatest_lower_bound(a: FileMode, b: FileMode, c: FileMode)
    ensures
        a.0 & BitAndSpec::bitand_spec(a, b).0 == BitAndSpec::bitand_spec(a, b).0,
        b.0 & BitAndSpec::bitand_spec(a, b).0 == BitAndSpec::bitand_spec(a, b).0,
        a.0 & c.0 == c.0 && b.0 & c.0 == c.0 ==> BitAndSpec::bitand_spec(a, b).0 & c.0 == c.0,
{
    let (x, y, z) = (a.0, b.0, c.0);
    assert(x & (x & y) == (x & y) && y & (x & y) == (x & y)) by (bit_vector);
    assert(x & z == z && y & z == z ==> (x & y) & z == z) by (bit_vector);
}

/// `!a` shares no bit with `a`, and the two together hold every bit.
pub proof fn law_file_mode_complement(a: FileMode)
    ensures
        NotSpec::not_spec(a).0 & a.0 == 0,
        NotSpec::not_spec(a).0 | a.0 == 0xffffu16,
{
    let x = a.0;
    assert(!x & x == 0 && (!x | x) == 0xffffu16) by (bit_vector);
}

} // verus!
