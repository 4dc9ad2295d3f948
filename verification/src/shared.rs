//! Types and sizes shared by every kernel and every runner.
use vstd::prelude::*;

pub mod grid;
pub mod particles;

verus! {

/// Resolution multiplier of the scene.
pub const QUALITY: u32 = 1;

/// Number of particles in the scene.
pub const N_PARTICLES: u32 = 9 * QUALITY * QUALITY;

/// Number of particles of each material.
pub const MATERIAL_GROUP_SIZE: u32 = N_PARTICLES / 3;

/// Number of grid cells along one dimension.
pub const N_GRID: u32 = 128 * QUALITY;

/// Number of grid cells along the x axis.
pub const N_GRID_X: u32 = N_GRID;

/// Total number of grid cells.
pub const N_GRID_TOTAL: u32 = N_GRID * (128 * QUALITY);

/// Threads per work group of the one-dimensional kernels.
pub const WORKGROUP_SIZE: u32 = 64;

/// Threads per work group, per axis, of the grid kernels.
pub const GRID_WORKGROUP_SIZE: (u32, u32) = (8, 8);

/// The constant used in the demonstration computation `index * 2 + COMPUTE_CONSTANT`.
pub const COMPUTE_CONSTANT: u32 = 42;

/// `a + b` reduced modulo 2^32.
pub open spec fn spec_wrapping_sum(a: u32, b: u32) -> u32 {
    ((a as int + b as int) % 0x1_0000_0000) as u32
}

/// Adds `b` to `*a`, wrapping around on overflow as the device does.
pub fn add_update(a: &mut u32, b: u32)
    ensures
        *final(a) == spec_wrapping_sum(*old(a), b),
{
    let sum: u32 = a.wrapping_add(b);
    *a = sum;
}

/// The least `q` with `q * d >= n`.
pub open spec fn spec_div_ceil(n: int, d: int) -> int {
    (n + d - 1) / d
}

/// Number of groups of `d` items needed to cover `n` items.
pub fn div_ceil_u32(n: u32, d: u32) -> (r: u32)
    requires
        d > 0,
    ensures
        r == spec_div_ceil(n as int, d as int),
        (r as int) * (d as int) >= n as int,
        (r as int - 1) * (d as int) < n as int,
{
    let q: u32 = n / d;
    let m: u32 = n % d;
    proof {
        lemma_div_ceil(n as int, d as int);
    }
    if m != 0 {
        q + 1
    } else {
        q
    }
}

/// Rounding-up division is truncating division plus one when a remainder is left.
pub proof fn lemma_div_ceil(n: int, d: int)
    requires
        n >= 0,
        d > 0,
    ensures
        spec_div_ceil(n, d) == n / d + (if n % d != 0 { 1int } else { 0int }),
        spec_div_ceil(n, d) * d >= n,
        (spec_div_ceil(n, d) - 1) * d < n,
        n / d <= n,
        n % d != 0 ==> n / d < n,
{
    let q = n / d;
    let m = n % d;
    assert(n == d * q + m && 0 <= m < d) by (nonlinear_arith)
        requires
            q == n / d,
            m == n % d,
            d > 0,
    ;
    assert(q >= 0 && q <= n) by (nonlinear_arith)
        requires
            n == d * q + m,
            0 <= m < d,
            n >= 0,
            d > 0,
    ;
    if m != 0 {
        assert((n + d - 1) / d == q + 1) by (nonlinear_arith)
            requires
                n == d * q + m,
                0 < m < d,
        ;
        assert((q + 1) * d >= n && q * d < n && q < n) by (nonlinear_arith)
            requires
                n == d * q + m,
                0 < m < d,
                q >= 0,
        ;
    } else {
        assert((n + d - 1) / d == q) by (nonlinear_arith)
            requires
                n == d * q,
                d > 0,
        ;
        assert(q * d >= n && (q - 1) * d < n) by (nonlinear_arith)
            requires
                n == d * q,
                d > 0,
        ;
    }
}

/// Work-group counts for a one-dimensional dispatch over `num_elements` items.
pub fn num_workgroups_1d(num_elements: u32) -> (r: [u32; 3])
    ensures
        r@ == seq![
            spec_div_ceil(num_elements as int, WORKGROUP_SIZE as int) as u32,
            1u32,
            1u32,
        ],
        (r[0] as int) * (WORKGROUP_SIZE as int) >= num_elements as int,
{
    let r: [u32; 3] = [div_ceil_u32(num_elements, WORKGROUP_SIZE), 1, 1];
    assert(r@ =~= seq![
        spec_div_ceil(num_elements as int, WORKGROUP_SIZE as int) as u32,
        1u32,
        1u32,
    ]);
    r
}

/// Work-group counts for a two-dimensional dispatch over a
/// `num_elts_x` by `num_elts_y` domain.
pub fn num_workgroups_2d(num_elts_x: u32, num_elts_y: u32) -> (r: [u32; 3])
    ensures
        r@ == seq![
            spec_div_ceil(num_elts_x as int, GRID_WORKGROUP_SIZE.0 as int) as u32,
            spec_div_ceil(num_elts_y as int, GRID_WORKGROUP_SIZE.1 as int) as u32,
            1u32,
        ],
        (r[0] as int) * (GRID_WORKGROUP_SIZE.0 as int) >= num_elts_x as int,
        (r[1] as int) * (GRID_WORKGROUP_SIZE.1 as int) >= num_elts_y as int,
{
    let r: [u32; 3] = [
        div_ceil_u32(num_elts_x, GRID_WORKGROUP_SIZE.0),
        div_ceil_u32(num_elts_y, GRID_WORKGROUP_SIZE.1),
        1,
    ];
    assert(r@ =~= seq![
        spec_div_ceil(num_elts_x as int, GRID_WORKGROUP_SIZE.0 as int) as u32,
        spec_div_ceil(num_elts_y as int, GRID_WORKGROUP_SIZE.1 as int) as u32,
        1u32,
    ]);
    r
}

/// Index of one thread of a dispatch.
#[derive(Copy, Clone, Debug)]
pub struct ThreadId(pub u32);

impl ThreadId {
    pub fn new(id: u32) -> (r: Self)
        ensures
            r.0 == id,
    {
        Self(id)
    }

    pub fn as_u32(&self) -> (r: u32)
        ensures
            r == self.0,
    {
        self.0
    }

    pub fn as_usize(&self) -> (r: usize)
        ensures
            r == self.0,
    {
        self.0 as usize
    }
}

/// Push constants shared between host and device.
#[derive(Copy, Clone, Debug)]
pub struct PushConstants {
    pub num_elements: u32,
}

/// Stage of the bitonic network: stage `s` merges sorted runs of length
/// `2^s` into runs of length `2^(s+1)`.
#[derive(Copy, Clone, Debug, PartialEq, Eq, Structural)]
pub struct Stage(pub u32);

impl Stage {
    pub fn new(stage: u32) -> (r: Self)
        ensures
            r.0 == stage,
    {
        Self(stage)
    }

    pub fn as_u32(&self) -> (r: u32)
        ensures
            r == self.0,
    {
        self.0
    }
}

/// Pass within a stage: pass `p` of stage `s` compares elements `2^(s-p)` apart.
#[derive(Copy, Clone, Debug, PartialEq, Eq, Structural)]
pub struct Pass(pub u32);

impl Pass {
    pub fn new(pass: u32) -> (r: Self)
        ensures
            r.0 == pass,
    {
        Self(pass)
    }

    pub fn as_u32(&self) -> (r: u32)
        ensures
            r == self.0,
    {
        self.0
    }
}

/// Order in which a sort leaves its keys.
#[derive(Copy, Clone, Debug, PartialEq, Eq, Structural)]
pub enum SortOrder {
    Ascending,
    Descending,
}

impl SortOrder {
    /// The number that stands for this order in `BitonicParams`.
    pub open spec fn code(self) -> u32 {
        match self {
            SortOrder::Ascending => 0,
            SortOrder::Descending => 1,
        }
    }

    /// The order that `value` stands for, if any.
    pub open spec fn spec_from_code(value: u32) -> Option<SortOrder> {
        if value == 0 {
            Some(SortOrder::Ascending)
        } else if value == 1 {
            Some(SortOrder::Descending)
        } else {
            None
        }
    }

    /// Reads an order from its number; only 0 and 1 stand for one.
    pub fn try_from_u32(value: u32) -> (r: Result<SortOrder, &'static str>)
        ensures
            r is Ok <==> value <= 1,
            r is Ok ==> Some(r->Ok_0) == Self::spec_from_code(value),
            r is Ok ==> r->Ok_0.code() == value,
    {
        match value {
            0 => Ok(SortOrder::Ascending),
            1 => Ok(SortOrder::Descending),
            _ => Err("Invalid SortOrder value"),
        }
    }

    /// The number that stands for this order.
    pub fn to_u32(self) -> (r: u32)
        ensures
            r == self.code(),
            Self::spec_from_code(r) == Some(self),
    {
        match self {
            SortOrder::Ascending => 0,
            SortOrder::Descending => 1,
        }
    }

    /// The lower-case name of this order.
    pub fn name(&self) -> (r: &'static str)
        ensures
            r@ == (match *self {
                SortOrder::Ascending => "ascending"@,
                SortOrder::Descending => "descending"@,
            }),
    {
        match self {
            SortOrder::Ascending => "ascending",
            SortOrder::Descending => "descending",
        }
    }
}

/// What `SortOrder::try_from` says of a number that stands for no order.
pub const INVALID_SORT_ORDER: &'static str = "Invalid SortOrder value";

impl TryFrom<u32> for SortOrder {
    type Error = &'static str;

    fn try_from(value: u32) -> (r: Result<Self, Self::Error>) {
        match value {
            0 => Ok(SortOrder::Ascending),
            1 => Ok(SortOrder::Descending),
            _ => Err(INVALID_SORT_ORDER),
        }
    }
}

impl vstd::std_specs::convert::TryFromSpecImpl<u32> for SortOrder {
    open spec fn obeys_try_from_spec() -> bool {
        true
    }

    open spec fn try_from_spec(value: u32) -> Result<Self, Self::Error> {
        if value == 0 {
            Ok(SortOrder::Ascending)
        } else if value == 1 {
            Ok(SortOrder::Descending)
        } else {
            Err(INVALID_SORT_ORDER)
        }
    }
}

impl From<SortOrder> for u32 {
    fn from(order: SortOrder) -> (r: u32) {
        match order {
            SortOrder::Ascending => 0,
            SortOrder::Descending => 1,
        }
    }
}

impl vstd::std_specs::convert::FromSpecImpl<SortOrder> for u32 {
    open spec fn obeys_from_spec() -> bool {
        true
    }

    open spec fn from_spec(order: SortOrder) -> u32 {
        order.code()
    }
}

/// Parameters of one pass of the bitonic sort.
#[derive(Copy, Clone, Debug)]
pub struct BitonicParams {
    pub num_elements: u32,
    /// Current stage.
    pub stage: Stage,
    /// Current pass within the stage.
    pub pass_of_stage: Pass,
    /// Sort order as a number (0 = ascending, 1 = descending).
    pub sort_order: u32,
}

/// Direction of one compare-exchange.
#[derive(Copy, Clone, Debug, PartialEq, Eq, Structural)]
pub enum CompareDirection {
    /// Sort in ascending order.
    Up,
    /// Sort in descending order.
    Down,
}

impl CompareDirection {
    pub fn from_bool(ascending: bool) -> (r: Self)
        ensures
            (r == CompareDirection::Up) <==> ascending,
    {
        if ascending {
            CompareDirection::Up
        } else {
            CompareDirection::Down
        }
    }

    pub fn is_ascending(&self) -> (r: bool)
        ensures
            r <==> *self == CompareDirection::Up,
    {
        matches!(self, CompareDirection::Up)
    }
}

/// Whether two keys, the first at the lower index, stand against `order`.
pub open spec fn spec_key_should_swap(a: u32, b: u32, order: SortOrder) -> bool {
    match order {
        SortOrder::Ascending => a > b,
        SortOrder::Descending => a < b,
    }
}

/// A type whose values the bitonic sort can order: each value has an
/// unsigned key, the sort orders by key, and the value is read back from
/// its key.
pub trait SortableKey: Copy {
    /// The key by which `self` is sorted.
    spec fn spec_sortable(&self) -> u32;

    /// The value that the key `val` stands for.
    spec fn spec_from_sortable(val: u32) -> Self;

    /// A value is read back unchanged from its own key.
    proof fn lemma_key_round_trip(x: Self)
        ensures
            Self::spec_from_sortable(x.spec_sortable()) == x,
    ;

    /// A key is read back unchanged from the value it stands for.
    proof fn lemma_sortable_round_trip(val: u32)
        ensures
            Self::spec_from_sortable(val).spec_sortable() == val,
    ;

    /// Convert to the unsigned key used on the device.
    fn to_sortable_u32(&self) -> (r: u32)
        ensures
            r == self.spec_sortable(),
    ;

    /// Convert back from the key.
    fn from_sortable_u32(val: u32) -> (r: Self)
        ensures
            r == Self::spec_from_sortable(val),
    ;

    /// Whether `self`, at the lower index, and `other` stand against `order`.
    fn should_swap(&self, other: &Self, order: SortOrder) -> (r: bool)
        ensures
            r == spec_key_should_swap(self.spec_sortable(), other.spec_sortable(), order),
    {
        let a: u32 = self.to_sortable_u32();
        let b: u32 = other.to_sortable_u32();
        match order {
            SortOrder::Ascending => a > b,
            SortOrder::Descending => a < b,
        }
    }

    /// The value used to fill up an ascending sort.
    fn max_value() -> Self;

    /// The value used to fill up a descending sort.
    fn min_value() -> Self;
}

impl SortableKey for u32 {
    open spec fn spec_sortable(&self) -> u32 {
        *self
    }

    open spec fn spec_from_sortable(val: u32) -> Self {
        val
    }

    proof fn lemma_key_round_trip(x: Self) {
    }

    proof fn lemma_sortable_round_trip(val: u32) {
    }

    fn to_sortable_u32(&self) -> (r: u32) {
        *self
    }

    fn from_sortable_u32(val: u32) -> (r: Self) {
        val
    }

    fn max_value() -> (r: Self)
        ensures
            r == u32::MAX,
    {
        u32::MAX
    }

    fn min_value() -> (r: Self)
        ensures
            r == 0,
    {
        u32::MIN
    }
}

/// The key of a signed number: the number moved up by 2^31, so that the
/// least number has key 0.
pub open spec fn spec_signed_key(x: i32) -> u32 {
    (x + 0x8000_0000) as u32
}

/// The signed number that a key stands for.
pub open spec fn spec_signed_from_key(val: u32) -> i32 {
    (val - 0x8000_0000) as i32
}

/// Flipping the top bit of a signed number's bit pattern moves it up by
/// 2^31, and flipping the top bit of a key moves it back down.
pub proof fn lemma_signed_key_bits(x: i32, val: u32)
    ensures
        ((x as u32) ^ (1u32 << 31)) == spec_signed_key(x),
        ((val ^ (1u32 << 31)) as i32) == spec_signed_from_key(val),
{
    assert(((x as u32) ^ (1u32 << 31)) == (x + 0x8000_0000) as u32) by (bit_vector);
    assert(((val ^ (1u32 << 31)) as i32) == (val - 0x8000_0000) as i32) by (bit_vector);
}

/// Keys of signed numbers are ordered as the numbers are.
pub proof fn lemma_signed_key_monotone(a: i32, b: i32)
    ensures
        a < b <==> spec_signed_key(a) < spec_signed_key(b),
        a == b <==> spec_signed_key(a) == spec_signed_key(b),
{
}

impl SortableKey for i32 {
    open spec fn spec_sortable(&self) -> u32 {
        spec_signed_key(*self)
    }

    open spec fn spec_from_sortable(val: u32) -> Self {
        spec_signed_from_key(val)
    }

    proof fn lemma_key_round_trip(x: Self) {
    }

    proof fn lemma_sortable_round_trip(val: u32) {
    }

    fn to_sortable_u32(&self) -> (r: u32) {
        proof {
            lemma_signed_key_bits(*self, 0);
        }
        // Flip the sign bit so that negative numbers sort first.
        (*self as u32) ^ (1u32 << 31)
    }

    fn from_sortable_u32(val: u32) -> (r: Self) {
        proof {
            lemma_signed_key_bits(0, val);
        }
        (val ^ (1u32 << 31)) as i32
    }

    fn max_value() -> (r: Self)
        ensures
            r == i32::MAX,
    {
        i32::MAX
    }

    fn min_value() -> (r: Self)
        ensures
            r == i32::MIN,
    {
        i32::MIN
    }
}

/// The bit pattern of an IEEE-754 single-precision number, sorted in the
/// order of the numbers it stands for: negative numbers first, from the
/// largest magnitude down, then the positive ones from zero up.
#[derive(Copy, Clone, Debug, PartialEq, Eq, Structural)]
pub struct FloatBits(pub u32);

/// The sign bit of a single-precision bit pattern.
pub const FLOAT_SIGN_BIT: u32 = 0x8000_0000;

/// The key of a bit pattern: all bits flipped for a negative number, the
/// sign bit set for a positive one.
pub open spec fn spec_float_key(bits: u32) -> u32 {
    if bits & FLOAT_SIGN_BIT != 0 {
        !bits
    } else {
        bits | FLOAT_SIGN_BIT
    }
}

/// The bit pattern that a key stands for.
pub open spec fn spec_float_from_key(val: u32) -> u32 {
    if val & FLOAT_SIGN_BIT != 0 {
        val & !FLOAT_SIGN_BIT
    } else {
        !val
    }
}

/// Keys and bit patterns stand for each other one to one.
pub proof fn lemma_float_key_round_trip(bits: u32)
    ensures
        spec_float_from_key(spec_float_key(bits)) == bits,
        spec_float_key(spec_float_from_key(bits)) == bits,
{
    assert(bits & 0x8000_0000u32 != 0 ==> (!bits) & 0x8000_0000u32 == 0 && !(!bits) == bits)
        by (bit_vector);
    assert(bits & 0x8000_0000u32 == 0 ==> (!bits) & 0x8000_0000u32 != 0 && !(!bits) == bits)
        by (bit_vector);
    assert(bits & 0x8000_0000u32 == 0 ==> (bits | 0x8000_0000u32) & 0x8000_0000u32 != 0 && (bits
        | 0x8000_0000u32) & !0x8000_0000u32 == bits) by (bit_vector);
    assert(bits & 0x8000_0000u32 != 0 ==> (bits & !0x8000_0000u32) & 0x8000_0000u32 == 0 && (bits
        & !0x8000_0000u32) | 0x8000_0000u32 == bits) by (bit_vector);
}

/// Among positive patterns a larger magnitude has a larger key, among
/// negative patterns a smaller one, and every negative pattern has a smaller
/// key than every positive one.
pub proof fn lemma_float_key_order(a: u32, b: u32)
    ensures
        a < 0x8000_0000 && b < 0x8000_0000 ==> (a < b <==> spec_float_key(a) < spec_float_key(b)),
        a >= 0x8000_0000 && b >= 0x8000_0000 ==> (a < b <==> spec_float_key(a) > spec_float_key(
            b,
        )),
        a >= 0x8000_0000 && b < 0x8000_0000 ==> spec_float_key(a) < spec_float_key(b),
{
    assert(a < 0x8000_0000u32 ==> a & 0x8000_0000u32 == 0) by (bit_vector);
    assert(b < 0x8000_0000u32 ==> b & 0x8000_0000u32 == 0) by (bit_vector);
    assert(a >= 0x8000_0000u32 ==> a & 0x8000_0000u32 != 0) by (bit_vector);
    assert(b >= 0x8000_0000u32 ==> b & 0x8000_0000u32 != 0) by (bit_vector);
    assert(a < 0x8000_0000u32 && b < 0x8000_0000u32 ==> (a < b <==> (a | 0x8000_0000u32) < (b
        | 0x8000_0000u32))) by (bit_vector);
    assert((a < b <==> !a > !b)) by (bit_vector);
    assert(a >= 0x8000_0000u32 && b < 0x8000_0000u32 ==> !a < (b | 0x8000_0000u32))
        by (bit_vector);
}

impl SortableKey for FloatBits {
    open spec fn spec_sortable(&self) -> u32 {
        spec_float_key(self.0)
    }

    open spec fn spec_from_sortable(val: u32) -> Self {
        FloatBits(spec_float_from_key(val))
    }

    proof fn lemma_key_round_trip(x: Self) {
        lemma_float_key_round_trip(x.0);
    }

    proof fn lemma_sortable_round_trip(val: u32) {
        lemma_float_key_round_trip(val);
    }

    fn to_sortable_u32(&self) -> (r: u32) {
        let bits: u32 = self.0;
        // A negative number has all its bits flipped, a positive one only its sign bit.
        if bits & FLOAT_SIGN_BIT != 0 {
            !bits
        } else {
            bits | FLOAT_SIGN_BIT
        }
    }

    fn from_sortable_u32(val: u32) -> (r: Self) {
        let bits: u32 = if val & FLOAT_SIGN_BIT != 0 {
            val & !FLOAT_SIGN_BIT
        } else {
            !val
        };
        FloatBits(bits)
    }

    /// Positive infinity.
    fn max_value() -> (r: Self)
        ensures
            r.0 == 0x7F80_0000,
    {
        FloatBits(0x7F80_0000)
    }

    /// Negative infinity.
    fn min_value() -> (r: Self)
        ensures
            r.0 == 0xFF80_0000,
    {
        FloatBits(0xFF80_0000)
    }
}

} // verus!
