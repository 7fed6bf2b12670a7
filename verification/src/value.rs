//! Values, ranges and access modes of OSC nodes.
use vstd::prelude::*;

verus! {

/// An RGBA color.
#[derive(Debug, Clone, Copy, PartialEq, Eq, Structural)]
pub struct RgbaColorValue {
    pub r: u8,
    pub g: u8,
    pub b: u8,
    pub a: u8,
}

/// A value of an OSC node.
#[derive(Debug)]
pub enum OscValue {
    /// A 32-bit integer.
    Int(i32),
    /// A 64-bit floating point number, given by the bits of its IEEE 754 form.
    Float(u64),
    /// A string.
    String(String),
    /// A truth value.
    Bool(bool),
    /// A color.
    Color(RgbaColorValue),
    /// An array of values.
    Array(Vec<OscValue>),
    /// No value.
    Nil,
}

/// The values that a node accepts: those between two bounds, or those of a list.
#[derive(Debug)]
pub struct RangeInfo {
    /// Least accepted value.
    pub min: Option<OscValue>,
    /// Greatest accepted value.
    pub max: Option<OscValue>,
    /// The accepted values.
    pub vals: Option<Vec<OscValue>>,
}

/// What a value is.
pub enum OscValueView {
    Int(i32),
    Float(u64),
    Text(Seq<char>),
    Bool(bool),
    Color(RgbaColorValue),
    Array(Seq<OscValueView>),
    Nil,
}

/// What a range is.
pub struct RangeView {
    pub min: Option<OscValueView>,
    pub max: Option<OscValueView>,
    pub vals: Option<Seq<OscValueView>>,
}

/// What each of `values` is.
pub open spec fn values_view(values: Seq<OscValue>) -> Seq<OscValueView>
    decreases values,
{
    if values.len() == 0 {
        Seq::empty()
    } else {
        values_view(values.drop_last()).push(values.last()@)
    }
}

/// What each of `ranges` is.
pub open spec fn ranges_view(ranges: Seq<RangeInfo>) -> Seq<RangeView> {
    ranges.map_values(|r: RangeInfo| r@)
}

/// What the value in `v` is, if there is one.
pub open spec fn value_in(v: Option<OscValue>) -> Option<OscValueView> {
    match v {
        Some(value) => Some(value@),
        None => None,
    }
}

/// What the values in `v` are, if there are any.
pub open spec fn values_in(v: Option<Vec<OscValue>>) -> Option<Seq<OscValueView>> {
    match v {
        Some(values) => Some(values_view(values@)),
        None => None,
    }
}

/// What the ranges in `v` are, if there are any.
pub open spec fn ranges_in(v: Option<Vec<RangeInfo>>) -> Option<Seq<RangeView>> {
    match v {
        Some(ranges) => Some(ranges_view(ranges@)),
        None => None,
    }
}

impl OscValue {
    /// What this value is.
    pub open spec fn view(&self) -> OscValueView
        decreases self,
    {
        match self {
            OscValue::Int(i) => OscValueView::Int(*i),
            OscValue::Float(bits) => OscValueView::Float(*bits),
            OscValue::String(s) => OscValueView::Text(s@),
            OscValue::Bool(b) => OscValueView::Bool(*b),
            OscValue::Color(c) => OscValueView::Color(*c),
            OscValue::Array(values) => OscValueView::Array(values_view(values@)),
            OscValue::Nil => OscValueView::Nil,
        }
    }

    /// The same value again.
    pub fn copy(&self) -> (r: OscValue)
        ensures
            r@ == self@,
        decreases self,
    {
        match self {
            OscValue::Int(i) => OscValue::Int(*i),
            OscValue::Float(bits) => OscValue::Float(*bits),
            OscValue::String(s) => OscValue::String(s.clone()),
            OscValue::Bool(b) => OscValue::Bool(*b),
            OscValue::Color(c) => OscValue::Color(*c),
            OscValue::Array(values) => OscValue::Array(copy_values(values)),
            OscValue::Nil => OscValue::Nil,
        }
    }
}

impl RangeInfo {
    /// What this range is.
    pub open spec fn view(&self) -> RangeView {
        RangeView {
            min: value_in(self.min),
            max: value_in(self.max),
            vals: values_in(self.vals),
        }
    }
}

/// The same values again, in the same order.
pub fn copy_values(values: &Vec<OscValue>) -> (r: Vec<OscValue>)
    ensures
        values_view(r@) == values_view(values@),
    decreases values,
{
    let mut r: Vec<OscValue> = Vec::new();
    let mut i: usize = 0;
    while i < values.len()
        invariant
            i <= values@.len(),
            values_view(r@) == values_view(values@.take(i as int)),
        decreases values@.len() - i,
    {
        let v = values[i].copy();
        proof {
            assert(values@.take(i + 1).drop_last() =~= values@.take(i as int));
            assert(r@.push(v).drop_last() =~= r@);
        }
        r.push(v);
        i += 1;
    }
    assert(values@.take(values@.len() as int) =~= values@);
    r
}

/// The same ranges again, in the same order.
pub fn copy_ranges(ranges: &Vec<RangeInfo>) -> (r: Vec<RangeInfo>)
    ensures
        ranges_view(r@) == ranges_view(ranges@),
{
    let mut r: Vec<RangeInfo> = Vec::new();
    let mut i: usize = 0;
    while i < ranges.len()
        invariant
            i <= ranges@.len(),
            ranges_view(r@) == ranges_view(ranges@.take(i as int)),
        decreases ranges@.len() - i,
    {
        let v = ranges[i].clone();
        proof {
            assert(ranges_view(ranges@.take(i + 1)) =~= ranges_view(ranges@.take(i as int)).push(
                ranges@[i as int]@,
            ));
            assert(ranges_view(r@.push(v)) =~= ranges_view(r@).push(v@));
        }
        r.push(v);
        i += 1;
    }
    assert(ranges@.take(ranges@.len() as int) =~= ranges@);
    r
}

fn copy_value_in(v: &Option<OscValue>) -> (r: Option<OscValue>)
    ensures
        value_in(r) == value_in(*v),
{
    match v {
        Some(value) => Some(value.copy()),
        None => None,
    }
}

/// The same values again, if there are any.
pub fn copy_values_in(v: &Option<Vec<OscValue>>) -> (r: Option<Vec<OscValue>>)
    ensures
        values_in(r) == values_in(*v),
{
    match v {
        Some(values) => Some(copy_values(values)),
        None => None,
    }
}

/// The same ranges again, if there are any.
pub fn copy_ranges_in(v: &Option<Vec<RangeInfo>>) -> (r: Option<Vec<RangeInfo>>)
    ensures
        ranges_in(r) == ranges_in(*v),
{
    match v {
        Some(ranges) => Some(copy_ranges(ranges)),
        None => None,
    }
}

impl Clone for OscValue {
    fn clone(&self) -> (r: OscValue)
        ensures
            r@ == self@,
    {
        self.copy()
    }
}

impl Clone for RangeInfo {
    fn clone(&self) -> (r: RangeInfo)
        ensures
            r@ == self@,
    {
        RangeInfo {
            min: copy_value_in(&self.min),
            max: copy_value_in(&self.max),
            vals: copy_values_in(&self.vals),
        }
    }
}

/// Whether a node can be read and written.
#[derive(Debug, Clone, Copy, PartialEq, Eq, Structural)]
pub enum AccessMode {
    /// The node holds no value.
    NoAccess,
    /// The value can be read.
    ReadOnly,
    /// The value can be written.
    WriteOnly,
    /// The value can be read and written.
    ReadWrite,
}

/// The number that stands for `mode` in a node's description.
pub open spec fn access_code(mode: AccessMode) -> u8 {
    match mode {
        AccessMode::NoAccess => 0,
        AccessMode::ReadOnly => 1,
        AccessMode::WriteOnly => 2,
        AccessMode::ReadWrite => 3,
    }
}

impl Default for AccessMode {
    fn default() -> (r: AccessMode)
        ensures
            r == AccessMode::NoAccess,
    {
        AccessMode::NoAccess
    }
}

impl AccessMode {
    /// The number that stands for this mode.
    pub fn to_code(&self) -> (r: u8)
        ensures
            r == access_code(*self),
    {
        match self {
            AccessMode::NoAccess => 0,
            AccessMode::ReadOnly => 1,
            AccessMode::WriteOnly => 2,
            AccessMode::ReadWrite => 3,
        }
    }

    /// The mode that `code` stands for.
    pub fn from_code(code: u8) -> (r: Option<AccessMode>)
        ensures
            match r {
                Some(mode) => access_code(mode) == code,
                None => code > 3,
            },
    {
        match code {
            0 => Some(AccessMode::NoAccess),
            1 => Some(AccessMode::ReadOnly),
            2 => Some(AccessMode::WriteOnly),
            3 => Some(AccessMode::ReadWrite),
            _ => None,
        }
    }
}

/// Different modes have different numbers, and no mode has one above three.
pub proof fn law_access_codes(a: AccessMode, b: AccessMode)
    ensures
        access_code(a) == access_code(b) ==> a == b,
        access_code(a) <= 3,
{
}

/// What values are shows each of them, in order.
pub proof fn law_values_view(values: Seq<OscValue>, i: int)
    ensures
        values_view(values).len() == values.len(),
        0 <= i < values.len() ==> values_view(values)[i] == values[i]@,
    decreases values.len(),
{
    if values.len() > 0 {
        law_values_view(values.drop_last(), i);
    }
}

/// What a value is shows its kind and all that it holds.
pub proof fn law_value_view(v: OscValue)
    ensures
        v matches OscValue::Int(i) ==> v@ == OscValueView::Int(i),
        v matches OscValue::Float(bits) ==> v@ == OscValueView::Float(bits),
        v matches OscValue::String(s) ==> v@ == OscValueView::Text(s@),
        v matches OscValue::Bool(b) ==> v@ == OscValueView::Bool(b),
        v matches OscValue::Color(c) ==> v@ == OscValueView::Color(c),
        v matches OscValue::Array(vs) ==> v@ == OscValueView::Array(values_view(vs@)),
        v is Nil ==> v@ == OscValueView::Nil,
{
}

/// What a range is shows its bounds and its values.
pub proof fn law_range_view(r: RangeInfo)
    ensures
        r@.min is Some == r.min is Some,
        r@.max is Some == r.max is Some,
        r@.vals is Some == r.vals is Some,
        r.min matches Some(v) ==> r@.min == Some(v@),
        r.max matches Some(v) ==> r@.max == Some(v@),
        r.vals matches Some(vs) ==> r@.vals == Some(values_view(vs@)),
{
}

/// What ranges are shows each of them, in order.
pub proof fn law_ranges_view(ranges: Seq<RangeInfo>, i: int)
    ensures
        ranges_view(ranges).len() == ranges.len(),
        0 <= i < ranges.len() ==> ranges_view(ranges)[i] == ranges[i]@,
{
}

/// The modes none, read, write and both have the numbers from zero to three.
pub proof fn law_access_numbers()
    ensures
        access_code(AccessMode::NoAccess) == 0,
        access_code(AccessMode::ReadOnly) == 1,
        access_code(AccessMode::WriteOnly) == 2,
        access_code(AccessMode::ReadWrite) == 3,
{
}

} // verus!
