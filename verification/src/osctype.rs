//! OSC types and the tag strings that name them.
use vstd::prelude::*;

use crate::text;

verus! {

/// One OSC data type.
#[derive(Debug)]
pub enum OscType {
    /// 32-bit integer, `i`.
    Int32,
    /// 32-bit floating point number, `f`.
    Float32,
    /// OSC-string, `s`.
    OscString,
    /// OSC-blob, `b`.
    OscBlob,
    /// 64-bit integer, `h`.
    Int64,
    /// OSC-timetag, `t`.
    Timetag,
    /// 64-bit floating point number, `d`.
    Double,
    /// Symbolic name, `S`.
    Symbol,
    /// ASCII character, `c`.
    Char,
    /// RGBA color, `r`.
    RgbaColor,
    /// MIDI message, `m`.
    Midi,
    /// The value true, `T`.
    True,
    /// The value false, `F`.
    False,
    /// Nil, `N`.
    Nil,
    /// Infinitum or an impulse, `I`.
    Infinitum,
    /// An array of types, written between `[` and `]`.
    Array(Vec<OscType>),
}

/// What an [`OscType`] is: a basic type, named by its tag character, or an array of types.
pub enum OscTypeView {
    /// The basic type of this tag character.
    Basic(char),
    /// An array of these types.
    Array(Seq<OscTypeView>),
}

/// The types of `types`, in order.
pub open spec fn types_view(types: Seq<OscType>) -> Seq<OscTypeView>
    decreases types,
{
    if types.len() == 0 {
        Seq::empty()
    } else {
        types_view(types.drop_last()).push(types.last()@)
    }
}

/// The tag strings of `types`, one after the other.
pub open spec fn tags_of(types: Seq<OscType>) -> Seq<char>
    decreases types,
{
    if types.len() == 0 {
        Seq::empty()
    } else {
        tags_of(types.drop_last()) + types.last().spec_tag()
    }
}

/// The basic type of a tag character.
pub open spec fn basic_of(c: char) -> Option<OscType> {
    if c == 'i' {
        Some(OscType::Int32)
    } else if c == 'f' {
        Some(OscType::Float32)
    } else if c == 's' {
        Some(OscType::OscString)
    } else if c == 'b' {
        Some(OscType::OscBlob)
    } else if c == 'h' {
        Some(OscType::Int64)
    } else if c == 't' {
        Some(OscType::Timetag)
    } else if c == 'd' {
        Some(OscType::Double)
    } else if c == 'S' {
        Some(OscType::Symbol)
    } else if c == 'c' {
        Some(OscType::Char)
    } else if c == 'r' {
        Some(OscType::RgbaColor)
    } else if c == 'm' {
        Some(OscType::Midi)
    } else if c == 'T' {
        Some(OscType::True)
    } else if c == 'F' {
        Some(OscType::False)
    } else if c == 'N' {
        Some(OscType::Nil)
    } else if c == 'I' {
        Some(OscType::Infinitum)
    } else {
        None
    }
}

impl OscType {
    /// The tag character of a basic type.
    pub open spec fn tag_char(self) -> char {
        match self {
            OscType::Int32 => 'i',
            OscType::Float32 => 'f',
            OscType::OscString => 's',
            OscType::OscBlob => 'b',
            OscType::Int64 => 'h',
            OscType::Timetag => 't',
            OscType::Double => 'd',
            OscType::Symbol => 'S',
            OscType::Char => 'c',
            OscType::RgbaColor => 'r',
            OscType::Midi => 'm',
            OscType::True => 'T',
            OscType::False => 'F',
            OscType::Nil => 'N',
            OscType::Infinitum => 'I',
            OscType::Array(_) => '[',
        }
    }

    /// What this type is.
    pub open spec fn view(&self) -> OscTypeView
        decreases self,
    {
        match *self {
            OscType::Array(types) => OscTypeView::Array(types_view(types@)),
            _ => OscTypeView::Basic(self.tag_char()),
        }
    }

    /// The tag string of this type.
    pub open spec fn spec_tag(self) -> Seq<char>
        decreases self,
    {
        match self {
            OscType::Array(types) => seq!['['] + tags_of(types@) + seq![']'],
            _ => seq![self.tag_char()],
        }
    }

    /// Neither this type nor, if it is an array, any of its elements holds a further array.
    pub open spec fn is_flat(self) -> bool {
        match self {
            OscType::Array(types) => forall|i: int|
                0 <= i < types@.len() ==> !(#[trigger] types@[i] is Array),
            _ => true,
        }
    }
}

/// How many brackets of `s` are opened and not closed.
pub open spec fn depth(s: Seq<char>) -> int
    decreases s.len(),
{
    if s.len() == 0 {
        0
    } else {
        depth(s.drop_last()) + if s.last() == '[' {
            1int
        } else if s.last() == ']' {
            -1int
        } else {
            0int
        }
    }
}

/// Some sequence of types has `s` for its tag strings.
pub open spec fn parsable(s: Seq<char>) -> bool {
    exists|types: Seq<OscType>| #[trigger] tags_of(types) == s
}

/// `r` is the type whose tag string is `text`, or `None` where no type has that tag string.
pub open spec fn is_type_named(text: Seq<char>, r: Option<OscType>) -> bool {
    match r {
        Some(t) => t.spec_tag() == text,
        None => forall|t: OscType| #[trigger] t.spec_tag() != text,
    }
}

/// Every type of `types` is flat.
pub open spec fn all_flat(types: Seq<OscType>) -> bool {
    forall|i: int| 0 <= i < types.len() ==> (#[trigger] types[i]).is_flat()
}

/// `r` holds the flat types whose tag strings make up `text`, or is `None` where `text` is not
/// made up of tag strings of flat types.
pub open spec fn are_types_named(text: Seq<char>, r: Option<OscTypeTag>) -> bool {
    match r {
        Some(tag) => all_flat(tag.types()) && tags_of(tag.types()) == text,
        None => forall|types: Seq<OscType>|
            all_flat(types) ==> #[trigger] tags_of(types) != text,
    }
}

proof fn lemma_depth_concat(a: Seq<char>, b: Seq<char>)
    ensures
        depth(a + b) == depth(a) + depth(b),
    decreases b.len(),
{
    if b.len() == 0 {
        assert(a + b == a);
    } else {
        assert((a + b).drop_last() == a + b.drop_last());
        lemma_depth_concat(a, b.drop_last());
    }
}

proof fn lemma_tags_concat(a: Seq<OscType>, b: Seq<OscType>)
    ensures
        tags_of(a + b) == tags_of(a) + tags_of(b),
    decreases b.len(),
{
    if b.len() == 0 {
        assert(a + b == a);
    } else {
        assert((a + b).drop_last() == a + b.drop_last());
        lemma_tags_concat(a, b.drop_last());
        assert(tags_of(a) + tags_of(b) == tags_of(a) + tags_of(b.drop_last())
            + b.last().spec_tag());
    }
}

/// The tag of a basic type is one character that is no bracket; that of an array opens a
/// bracket at its start and closes it at its end, and not before.
pub proof fn lemma_tag_shape(t: OscType)
    ensures
        t.spec_tag().len() >= 1,
        depth(t.spec_tag()) == 0,
        t is Array ==> {
            &&& t.spec_tag().len() >= 2
            &&& t.spec_tag()[0] == '['
            &&& t.spec_tag().last() == ']'
            &&& forall|k: int|
                0 < k < t.spec_tag().len() ==> depth(#[trigger] t.spec_tag().take(k)) >= 1
        },
        t !is Array ==> {
            &&& t.spec_tag() == seq![t.tag_char()]
            &&& basic_of(t.tag_char()) == Some(t)
            &&& t.tag_char() != '['
            &&& t.tag_char() != ']'
        },
    decreases t,
{
    match t {
        OscType::Array(types) => {
            let inner = tags_of(types@);
            let tag = t.spec_tag();
            lemma_tags_shape(types@);
            lemma_depth_concat(seq!['['], inner);
            lemma_depth_concat(seq!['['] + inner, seq![']']);
            assert(depth(seq!['[']) == 1) by {
                reveal_with_fuel(depth, 2);
            }
            assert(depth(seq![']']) == -1) by {
                reveal_with_fuel(depth, 2);
            }
            assert forall|k: int| 0 < k < tag.len() implies depth(#[trigger] tag.take(k)) >= 1 by {
                assert(tag.take(k) == seq!['['] + inner.take(k - 1));
                lemma_depth_concat(seq!['['], inner.take(k - 1));
            }
        },
        _ => {
            assert(depth(seq![t.tag_char()]) == 0) by {
                reveal_with_fuel(depth, 2);
            }
        },
    }
}

/// A sequence of tags closes no bracket that it has not opened, and leaves none open.
proof fn lemma_tags_shape(types: Seq<OscType>)
    ensures
        depth(tags_of(types)) == 0,
        forall|k: int|
            0 <= k <= tags_of(types).len() ==> depth(#[trigger] tags_of(types).take(k)) >= 0,
    decreases types,
{
    let all = tags_of(types);
    if types.len() == 0 {
        assert(all.take(0) == all);
    } else {
        let front = tags_of(types.drop_last());
        let tag = types.last().spec_tag();
        lemma_tags_shape(types.drop_last());
        lemma_tag_shape(types.last());
        lemma_depth_concat(front, tag);
        assert forall|k: int| 0 <= k <= all.len() implies depth(#[trigger] all.take(k)) >= 0 by {
            if k <= front.len() {
                assert(all.take(k) == front.take(k));
            } else {
                let m = k - front.len();
                assert(all.take(k) == front + tag.take(m));
                lemma_depth_concat(front, tag.take(m));
                if m == tag.len() {
                    assert(tag.take(m) == tag);
                }
            }
        }
    }
}

/// The first of the types that `s` names, and the others.
proof fn first_tag(s: Seq<char>) -> (r: (OscType, Seq<OscType>))
    requires
        parsable(s),
        s.len() > 0,
    ensures
        s == r.0.spec_tag() + tags_of(r.1),
{
    let types = choose|types: Seq<OscType>| #[trigger] tags_of(types) == s;
    let head = types.take(1);
    let rest = types.skip(1);
    assert(types == head + rest);
    lemma_tags_concat(head, rest);
    assert(tags_of(head) == head[0].spec_tag()) by {
        reveal_with_fuel(tags_of, 2);
        assert(head.drop_last() =~= Seq::<OscType>::empty());
        assert(tags_of(head) =~= head[0].spec_tag());
    }
    (types[0], rest)
}

/// The basic type of a tag character.
fn basic(c: char) -> (r: Option<OscType>)
    ensures
        r == basic_of(c),
{
    match c {
        'i' => Some(OscType::Int32),
        'f' => Some(OscType::Float32),
        's' => Some(OscType::OscString),
        'b' => Some(OscType::OscBlob),
        'h' => Some(OscType::Int64),
        't' => Some(OscType::Timetag),
        'd' => Some(OscType::Double),
        'S' => Some(OscType::Symbol),
        'c' => Some(OscType::Char),
        'r' => Some(OscType::RgbaColor),
        'm' => Some(OscType::Midi),
        'T' => Some(OscType::True),
        'F' => Some(OscType::False),
        'N' => Some(OscType::Nil),
        'I' => Some(OscType::Infinitum),
        _ => None,
    }
}

/// End of the tag that starts at `from` and ends at `to` or before: behind the bracket that
/// closes the one at `from`, or behind the one character of a basic tag.
fn tag_end(chars: &Vec<char>, from: usize, to: usize) -> (r: Option<usize>)
    requires
        from < to <= chars@.len(),
    ensures
        ends_first_tag(
            chars@.subrange(from as int, to as int),
            match r {
                Some(end) => Some(end - from),
                None => None,
            },
        ),
        r is Some ==> from < r->0 <= to,
{
    let ghost rest = chars@.subrange(from as int, to as int);
    if chars[from] != '[' {
        return Some(from + 1);
    }
    let mut level: usize = 1;
    let mut end: usize = from + 1;
    proof {
        reveal_with_fuel(depth, 2);
        assert(rest.take(1).drop_last() =~= Seq::<char>::empty());
    }
    while end < to && level > 0
        invariant
            from < end <= to <= chars@.len(),
            rest == chars@.subrange(from as int, to as int),
            rest[0] == '[',
            level == depth(rest.take(end - from)),
            level <= end - from,
            forall|k: int| 0 < k < end - from ==> depth(#[trigger] rest.take(k)) >= 1,
        decreases to - end,
    {
        let c = chars[end];
        assert(rest.take(end + 1 - from).drop_last() =~= rest.take(end - from));
        if c == '[' {
            level += 1;
        } else if c == ']' {
            level -= 1;
        }
        end += 1;
    }
    if level == 0 {
        Some(end)
    } else {
        None
    }
}

/// `end` is one where `s` starts with no bracket; where it starts with one, `end` is behind the
/// bracket that closes it, or `None` if none does.
spec fn ends_first_tag(s: Seq<char>, end: Option<int>) -> bool {
    match end {
        Some(n) => {
            &&& 0 < n <= s.len()
            &&& s[0] != '[' ==> n == 1
            &&& s[0] == '[' ==> depth(s.take(n)) == 0
            &&& forall|k: int| 0 < k < n ==> depth(#[trigger] s.take(k)) >= 1
        },
        None => {
            &&& s[0] == '['
            &&& forall|k: int| 0 < k <= s.len() ==> depth(#[trigger] s.take(k)) >= 1
        },
    }
}

/// In text that names types, the first tag ends where its bracket closes.
proof fn lemma_first_end(s: Seq<char>, end: Option<int>)
    requires
        s.len() > 0,
        ends_first_tag(s, end),
        parsable(s),
    ensures
        end is Some,
        exists|t: OscType| #[trigger] t.spec_tag() == s.take(end->0),
        parsable(s.skip(end->0)),
{
    let (t, rest) = first_tag(s);
    lemma_tag_shape(t);
    let tag = t.spec_tag();
    let n = tag.len() as int;
    assert(s.take(n) =~= tag);
    assert(s.skip(n) =~= tags_of(rest));
    assert(s[0] == tag[0]);
    if s[0] == '[' {
        assert(t is Array);
        assert(depth(s.take(n)) == 0);
        let e = end->0;
        if e < n {
            assert(s.take(e) =~= tag.take(e));
        }
        assert(e == n);
    }
    assert(end == Some(n));
}

/// Reads the type whose tag is the text from `from` up to `to`.
fn parse_type(chars: &Vec<char>, from: usize, to: usize) -> (r: Option<OscType>)
    requires
        from <= to <= chars@.len(),
    ensures
        is_type_named(chars@.subrange(from as int, to as int), r),
    decreases to - from,
{
    let ghost text = chars@.subrange(from as int, to as int);
    proof {
        assert forall|t: OscType| #[trigger] t.spec_tag() == text implies (if t is Array {
            to - from >= 2 && text[0] == '[' && text.last() == ']'
        } else {
            to - from == 1 && basic_of(text[0]) == Some(t)
        }) by {
            lemma_tag_shape(t);
        }
    }
    if to - from >= 2 && chars[from] == '[' && chars[to - 1] == ']' {
        let ghost inner = chars@.subrange(from + 1, to - 1);
        let mut types: Vec<OscType> = Vec::new();
        let mut i: usize = from + 1;
        proof {
            assert(chars@.subrange(from + 1, from + 1) =~= Seq::<char>::empty());
            assert forall|t: OscType| #[trigger] t.spec_tag() == text implies parsable(inner) by {
                lemma_tag_shape(t);
                let elements = t->Array_0@;
                assert(tags_of(elements) =~= inner) by {
                    assert(text =~= seq!['['] + tags_of(elements) + seq![']']);
                    assert(text.subrange(1, text.len() - 1) =~= inner);
                }
            }
        }
        while i < to - 1
            invariant
                from + 1 <= i <= to - 1,
                to <= chars@.len(),
                text == chars@.subrange(from as int, to as int),
                inner == chars@.subrange(from + 1, to - 1),
                tags_of(types@) == chars@.subrange(from + 1, i as int),
                parsable(inner) ==> parsable(chars@.subrange(i as int, to - 1)),
                forall|t: OscType| #[trigger] t.spec_tag() == text ==> parsable(inner),
            decreases to - i,
        {
            let ghost rest = chars@.subrange(i as int, to - 1);
            let found = tag_end(chars, i, to - 1);
            proof {
                let end = match found {
                    Some(end) => Some(end - i),
                    None => None,
                };
                if parsable(inner) {
                    lemma_first_end(rest, end);
                }
            }
            let end = match found {
                Some(end) => end,
                None => {
                    return None;
                },
            };
            proof {
                assert(rest.take(end - i) =~= chars@.subrange(i as int, end as int));
                assert(rest.skip(end - i) =~= chars@.subrange(end as int, to - 1));
            }
            match parse_type(chars, i, end) {
                Some(t) => {
                    proof {
                        let before = types@;
                        assert(before.push(t).drop_last() =~= before);
                        assert(chars@.subrange(from + 1, i as int) + chars@.subrange(
                            i as int,
                            end as int,
                        ) =~= chars@.subrange(from + 1, end as int));
                    }
                    types.push(t);
                },
                None => {
                    return None;
                },
            }
            i = end;
        }
        let t = OscType::Array(types);
        proof {
            assert(t.spec_tag() =~= text);
        }
        Some(t)
    } else if to - from == 1 {
        let r = basic(chars[from]);
        proof {
            if r is Some {
                assert(r->0.spec_tag() =~= text);
            }
        }
        r
    } else {
        None
    }
}

/// `types_view` keeps the length and the order.
pub proof fn lemma_types_view(types: Seq<OscType>)
    ensures
        types_view(types).len() == types.len(),
        forall|i: int| 0 <= i < types.len() ==> #[trigger] types_view(types)[i] == types[i]@,
    decreases types.len(),
{
    if types.len() > 0 {
        lemma_types_view(types.drop_last());
        assert forall|i: int| 0 <= i < types.len() implies #[trigger] types_view(types)[i]
            == types[i]@ by {
            if i < types.len() - 1 {
                assert(types.drop_last()[i] == types[i]);
            }
        }
    }
}

/// Tags close a bracket exactly where a type among them is an array.
proof fn lemma_basic_tags(types: Seq<OscType>)
    ensures
        tags_of(types).contains(']') <==> exists|i: int|
            0 <= i < types.len() && #[trigger] types[i] is Array,
    decreases types.len(),
{
    if types.len() > 0 {
        let front = types.drop_last();
        let last = types.last();
        let tag = last.spec_tag();
        let all = tags_of(types);
        lemma_basic_tags(front);
        lemma_tag_shape(last);
        if all.contains(']') {
            let k = choose|k: int| 0 <= k < all.len() && all[k] == ']';
            if k < tags_of(front).len() {
                assert(tags_of(front)[k] == ']');
                let i = choose|i: int| 0 <= i < front.len() && #[trigger] front[i] is Array;
                assert(types[i] is Array);
            } else {
                assert(tag[k - tags_of(front).len()] == ']');
                assert(types[types.len() - 1] is Array);
            }
        }
        if exists|i: int| 0 <= i < types.len() && #[trigger] types[i] is Array {
            let i = choose|i: int| 0 <= i < types.len() && #[trigger] types[i] is Array;
            if i < front.len() {
                assert(front[i] is Array);
                let k = choose|k: int| 0 <= k < tags_of(front).len() && tags_of(front)[k] == ']';
                assert(all[k] == ']');
            } else {
                assert(all[all.len() - 1] == ']');
            }
        }
    }
}

/// An array is flat exactly when its tag closes no bracket before its end.
proof fn lemma_flat_tag(t: OscType)
    requires
        t is Array,
    ensures
        t.is_flat() <==> forall|k: int|
            0 <= k < t.spec_tag().len() - 1 ==> #[trigger] t.spec_tag()[k] != ']',
{
    let types = t->Array_0@;
    let inner = tags_of(types);
    let tag = t.spec_tag();
    lemma_basic_tags(types);
    if t.is_flat() {
        assert forall|k: int| 0 <= k < tag.len() - 1 implies #[trigger] tag[k] != ']' by {
            if k > 0 {
                assert(tag[k] == inner[k - 1]);
            }
        }
    } else {
        let k = choose|k: int| 0 <= k < inner.len() && inner[k] == ']';
        assert(tag[k + 1] == ']');
    }
}

/// Two tags at the start of the same text are the same.
proof fn lemma_same_first_tag(a: OscType, b: OscType, after_a: Seq<char>, after_b: Seq<char>)
    requires
        a.spec_tag() + after_a == b.spec_tag() + after_b,
    ensures
        a.spec_tag() == b.spec_tag(),
        after_a == after_b,
{
    lemma_tag_shape(a);
    lemma_tag_shape(b);
    let s = a.spec_tag() + after_a;
    let n = a.spec_tag().len() as int;
    let m = b.spec_tag().len() as int;
    assert(s.take(n) =~= a.spec_tag());
    assert(s.take(m) =~= b.spec_tag());
    assert(s.skip(n) =~= after_a);
    assert(s.skip(m) =~= after_b);
    assert(s[0] == a.spec_tag()[0] && s[0] == b.spec_tag()[0]);
    if n < m {
        assert(b.spec_tag().take(n) =~= a.spec_tag());
    }
    if m < n {
        assert(a.spec_tag().take(m) =~= b.spec_tag());
    }
}

/// The tags of a sequence start with the tag of its first type.
proof fn lemma_tags_first(types: Seq<OscType>)
    requires
        types.len() > 0,
    ensures
        tags_of(types) == types[0].spec_tag() + tags_of(types.skip(1)),
{
    let head = types.take(1);
    assert(types =~= head + types.skip(1));
    lemma_tags_concat(head, types.skip(1));
    assert(tags_of(head) =~= types[0].spec_tag()) by {
        reveal_with_fuel(tags_of, 2);
        assert(head.drop_last() =~= Seq::<OscType>::empty());
    }
}

/// Different types have different tag strings.
pub proof fn law_tag_is_injective(a: OscType, b: OscType)
    requires
        a.spec_tag() == b.spec_tag(),
    ensures
        a@ == b@,
    decreases a, 1nat,
{
    lemma_tag_shape(a);
    lemma_tag_shape(b);
    if a is Array {
        assert(b is Array);
        let ta = a->Array_0@;
        let tb = b->Array_0@;
        let tag = a.spec_tag();
        assert(tags_of(ta) =~= tag.subrange(1, tag.len() - 1));
        assert(tags_of(tb) =~= tag.subrange(1, tag.len() - 1));
        law_tags_are_injective(ta, tb);
    } else {
        assert(a.spec_tag()[0] == b.spec_tag()[0]);
    }
}

/// Different sequences of types have different tag strings.
pub proof fn law_tags_are_injective(a: Seq<OscType>, b: Seq<OscType>)
    requires
        tags_of(a) == tags_of(b),
    ensures
        types_view(a) == types_view(b),
    decreases a, 0nat,
{
    if a.len() == 0 {
        if b.len() > 0 {
            lemma_tags_first(b);
            lemma_tag_shape(b[0]);
        }
    } else if b.len() == 0 {
        lemma_tags_first(a);
        lemma_tag_shape(a[0]);
    } else {
        lemma_tags_first(a);
        lemma_tags_first(b);
        lemma_same_first_tag(a[0], b[0], tags_of(a.skip(1)), tags_of(b.skip(1)));
        law_tag_is_injective(a[0], b[0]);
        law_tags_are_injective(a.skip(1), b.skip(1));
        lemma_types_view(a);
        lemma_types_view(b);
        lemma_types_view(a.skip(1));
        lemma_types_view(b.skip(1));
        assert forall|i: int| 0 <= i < a.len() implies #[trigger] types_view(a)[i] == types_view(
            b,
        )[i] by {
            if i > 0 {
                assert(types_view(a.skip(1))[i - 1] == a[i]@);
                assert(types_view(b.skip(1))[i - 1] == b[i]@);
            }
        }
        assert(types_view(a) =~= types_view(b));
    }
}

/// Reading the tag string of a type gives the type back.
pub proof fn law_type_read_back(t: OscType, read: Option<OscType>)
    requires
        is_type_named(t.spec_tag(), read),
    ensures
        read is Some,
        read->0@ == t@,
{
    if read is Some {
        law_tag_is_injective(read->0, t);
    }
}

/// Reading the tag string of flat types gives the types back.
pub proof fn law_types_read_back(types: Seq<OscType>, read: Option<OscTypeTag>)
    requires
        all_flat(types),
        are_types_named(tags_of(types), read),
    ensures
        read is Some,
        types_view(read->0.types()) == types_view(types),
{
    if read is Some {
        law_tags_are_injective(read->0.types(), types);
    }
}

impl OscType {
    /// Whether this is the type of the values true or false.
    pub fn is_boolean(&self) -> (r: bool)
        ensures
            r == (self is True || self is False),
    {
        matches!(self, OscType::True | OscType::False)
    }

    /// Whether this is a numeric type.
    pub fn is_numeric(&self) -> (r: bool)
        ensures
            r == (self is Int32 || self is Float32 || self is Int64 || self is Double),
    {
        matches!(self, OscType::Int32 | OscType::Float32 | OscType::Int64 | OscType::Double)
    }

    /// The tag character of a basic type.
    fn basic_tag(&self) -> (r: char)
        ensures
            r == self.tag_char(),
    {
        match self {
            OscType::Int32 => 'i',
            OscType::Float32 => 'f',
            OscType::OscString => 's',
            OscType::OscBlob => 'b',
            OscType::Int64 => 'h',
            OscType::Timetag => 't',
            OscType::Double => 'd',
            OscType::Symbol => 'S',
            OscType::Char => 'c',
            OscType::RgbaColor => 'r',
            OscType::Midi => 'm',
            OscType::True => 'T',
            OscType::False => 'F',
            OscType::Nil => 'N',
            OscType::Infinitum => 'I',
            OscType::Array(_) => '[',
        }
    }

    /// The tag string of this type: one character, or for an array the tags of its elements
    /// between brackets.
    pub fn tag(&self) -> (r: String)
        ensures
            r@ == self.spec_tag(),
        decreases self,
    {
        let mut r = String::new();
        r.push(self.basic_tag());
        if let OscType::Array(types) = self {
            let mut i: usize = 0;
            while i < types.len()
                invariant
                    *self == OscType::Array(*types),
                    i <= types@.len(),
                    r@ == seq!['['] + tags_of(types@.take(i as int)),
                decreases types@.len() - i,
            {
                assert(decreases_to!(*self => self->Array_0));
                r.append(types[i].tag().as_str());
                assert(types@.take(i + 1).drop_last() =~= types@.take(i as int));
                i += 1;
            }
            assert(types@.take(types@.len() as int) =~= types@);
            r.push(']');
            assert(r@ =~= self.spec_tag());
        } else {
            assert(r@ =~= self.spec_tag());
        }
        r
    }

    /// The type whose tag string is `tag_char_or_array_str`.
    pub fn from_tag(tag_char_or_array_str: &str) -> (r: Option<OscType>)
        ensures
            is_type_named(tag_char_or_array_str@, r),
    {
        let chars = text::chars_of(tag_char_or_array_str);
        assert(chars@.subrange(0, chars@.len() as int) =~= chars@);
        parse_type(&chars, 0, chars.len())
    }

    /// Whether `self` and `other` are the same type.
    pub fn same_type(&self, other: &OscType) -> (r: bool)
        ensures
            r == (self@ == other@),
        decreases self,
    {
        match (self, other) {
            (OscType::Array(a), OscType::Array(b)) => {
                proof {
                    lemma_types_view(a@);
                    lemma_types_view(b@);
                }
                if a.len() != b.len() {
                    return false;
                }
                let mut i: usize = 0;
                while i < a.len()
                    invariant
                        *self == OscType::Array(*a),
                        *other == OscType::Array(*b),
                        a@.len() == b@.len(),
                        i <= a@.len(),
                        types_view(a@).len() == a@.len(),
                        types_view(b@).len() == b@.len(),
                        forall|k: int|
                            0 <= k < a@.len() ==> #[trigger] types_view(a@)[k] == a@[k]@,
                        forall|k: int|
                            0 <= k < b@.len() ==> #[trigger] types_view(b@)[k] == b@[k]@,
                        forall|k: int|
                            0 <= k < i ==> #[trigger] types_view(a@)[k] == types_view(b@)[k],
                    decreases a@.len() - i,
                {
                    if !a[i].same_type(&b[i]) {
                        assert(types_view(a@)[i as int] != types_view(b@)[i as int]);
                        return false;
                    }
                    i += 1;
                }
                assert(types_view(a@) =~= types_view(b@));
                true
            },
            (OscType::Array(_), _) => false,
            (_, OscType::Array(_)) => false,
            _ => self.basic_tag() == other.basic_tag(),
        }
    }
}

impl PartialEq for OscType {
    fn eq(&self, other: &OscType) -> (r: bool) {
        self.same_type(other)
    }
}

impl vstd::std_specs::cmp::PartialEqSpecImpl for OscType {
    open spec fn obeys_eq_spec() -> bool {
        true
    }

    open spec fn eq_spec(&self, other: &OscType) -> bool {
        self@ == other@
    }
}

impl Clone for OscType {
    fn clone(&self) -> (r: OscType)
        ensures
            r@ == self@,
    {
        self.copy()
    }
}

impl OscType {
    /// The same type again.
    pub fn copy(&self) -> (r: OscType)
        ensures
            r@ == self@,
            r.spec_tag() == self.spec_tag(),
        decreases self,
    {
        match self {
            OscType::Array(types) => OscType::Array(copy_types(types)),
            OscType::Int32 => OscType::Int32,
            OscType::Float32 => OscType::Float32,
            OscType::OscString => OscType::OscString,
            OscType::OscBlob => OscType::OscBlob,
            OscType::Int64 => OscType::Int64,
            OscType::Timetag => OscType::Timetag,
            OscType::Double => OscType::Double,
            OscType::Symbol => OscType::Symbol,
            OscType::Char => OscType::Char,
            OscType::RgbaColor => OscType::RgbaColor,
            OscType::Midi => OscType::Midi,
            OscType::True => OscType::True,
            OscType::False => OscType::False,
            OscType::Nil => OscType::Nil,
            OscType::Infinitum => OscType::Infinitum,
        }
    }
}

/// The same types again, in the same order.
fn copy_types(types: &Vec<OscType>) -> (r: Vec<OscType>)
    ensures
        r@.len() == types@.len(),
        types_view(r@) == types_view(types@),
        tags_of(r@) == tags_of(types@),
    decreases types,
{
    let mut r: Vec<OscType> = Vec::new();
    let mut i: usize = 0;
    while i < types.len()
        invariant
            i == r@.len(),
            i <= types@.len(),
            types_view(r@) == types_view(types@.take(i as int)),
            tags_of(r@) == tags_of(types@.take(i as int)),
        decreases types@.len() - i,
    {
        let t = types[i].copy();
        proof {
            assert(types@.take(i + 1).drop_last() =~= types@.take(i as int));
            assert(r@.push(t).drop_last() =~= r@);
        }
        r.push(t);
        i += 1;
    }
    assert(types@.take(types@.len() as int) =~= types@);
    r
}

impl Clone for OscTypeTag {
    fn clone(&self) -> (r: OscTypeTag)
        ensures
            r@ == self@,
            tags_of(r.types()) == tags_of(self.types()),
    {
        OscTypeTag(copy_types(&self.0))
    }
}

/// Some sequence of flat types has `s` for its tag strings.
pub open spec fn flat_parsable(s: Seq<char>) -> bool {
    exists|types: Seq<OscType>| all_flat(types) && #[trigger] tags_of(types) == s
}

/// In text that names flat types, the first tag is one character, or ends at the first closing
/// bracket.
proof fn lemma_flat_first_end(s: Seq<char>, end: int)
    requires
        flat_parsable(s),
        0 < end <= s.len(),
        s[0] != '[' ==> end == 1,
        s[0] == '[' ==> (forall|k: int| 0 < k < end - 1 ==> #[trigger] s[k] != ']') && (end
            == s.len() || s[end - 1] == ']'),
    ensures
        exists|t: OscType| #[trigger] t.spec_tag() == s.take(end),
        flat_parsable(s.skip(end)),
{
    let types = choose|types: Seq<OscType>| all_flat(types) && #[trigger] tags_of(types) == s;
    lemma_tags_first(types);
    let t = types[0];
    let rest = types.skip(1);
    lemma_tag_shape(t);
    let tag = t.spec_tag();
    assert(s[0] == tag[0]);
    if s[0] == '[' {
        assert(t is Array);
        assert(t.is_flat());
        lemma_flat_tag(t);
        let n = tag.len() as int;
        assert(s[n - 1] == tag[n - 1]);
        if end < n {
            assert(s[end - 1] == tag[end - 1]);
        }
        assert(end == n);
    }
    assert(end == tag.len());
    assert(s.take(end) =~= tag);
    assert(s.skip(end) =~= tags_of(rest));
    assert(all_flat(rest));
}

/// End of the flat tag that starts at `from`: behind the first closing bracket for an array, or
/// behind the one character of a basic tag.
fn flat_end(chars: &Vec<char>, from: usize) -> (end: usize)
    requires
        from < chars@.len(),
    ensures
        from < end <= chars@.len(),
        chars@[from as int] != '[' ==> end == from + 1,
        chars@[from as int] == '[' ==> (forall|k: int|
            from < k < end - 1 ==> #[trigger] chars@[k] != ']') && (end == chars@.len() || chars@[end
            - 1] == ']'),
{
    let len = chars.len();
    if chars[from] != '[' {
        return from + 1;
    }
    let mut end: usize = from + 1;
    while end < len
        invariant
            len == chars@.len(),
            chars@[from as int] == '[',
            from < end <= chars@.len(),
            forall|k: int| from < k < end ==> #[trigger] chars@[k] != ']',
        decreases chars@.len() - end,
    {
        end += 1;
        if chars[end - 1] == ']' {
            return end;
        }
    }
    end
}

/// The types of the arguments of an OSC method, in order.
#[derive(Debug)]
pub struct OscTypeTag(Vec<OscType>);

impl OscTypeTag {
    /// The types, in order.
    pub closed spec fn types(&self) -> Seq<OscType> {
        self.0@
    }

    /// What the types are, in order.
    pub open spec fn view(&self) -> Seq<OscTypeView> {
        types_view(self.types())
    }

    /// The tag of these types.
    pub fn new(types: Vec<OscType>) -> (r: OscTypeTag)
        ensures
            r.types() == types@,
    {
        OscTypeTag(types)
    }

    /// This tag with one more type at its end.
    pub fn with_type(self, t: OscType) -> (r: OscTypeTag)
        ensures
            r.types() == self.types().push(t),
    {
        let mut types = self.0;
        types.push(t);
        OscTypeTag(types)
    }

    /// The types whose tag strings make up `tag_string`. An array ends at the first closing
    /// bracket, so an array that holds arrays is not read.
    pub fn from_tag(tag_string: &str) -> (r: Option<OscTypeTag>)
        ensures
            are_types_named(tag_string@, r),
    {
        let chars = text::chars_of(tag_string);
        let mut types: Vec<OscType> = Vec::new();
        let mut i: usize = 0;
        assert(chars@.skip(0) =~= chars@);
        while i < chars.len()
            invariant
                chars@ == tag_string@,
                i <= chars@.len(),
                all_flat(types@),
                tags_of(types@) == chars@.take(i as int),
                flat_parsable(chars@) ==> flat_parsable(chars@.skip(i as int)),
            decreases chars@.len() - i,
        {
            let ghost rest = chars@.skip(i as int);
            let end = flat_end(&chars, i);
            proof {
                if flat_parsable(rest) {
                    lemma_flat_first_end(rest, end - i);
                }
                assert(rest.take(end - i) =~= chars@.subrange(i as int, end as int));
                assert(rest.skip(end - i) =~= chars@.skip(end as int));
            }
            match parse_type(&chars, i, end) {
                Some(t) => {
                    proof {
                        if t is Array {
                            lemma_tag_shape(t);
                            lemma_flat_tag(t);
                            assert forall|k: int|
                                0 <= k < t.spec_tag().len() - 1 implies #[trigger] t.spec_tag()[k]
                                != ']' by {
                                assert(t.spec_tag()[k] == chars@[i + k]);
                            }
                        }
                        assert(types@.push(t).drop_last() =~= types@);
                        assert(chars@.take(i as int) + chars@.subrange(i as int, end as int)
                            =~= chars@.take(end as int));
                    }
                    types.push(t);
                },
                None => {
                    return None;
                },
            }
            i = end;
        }
        assert(chars@.take(chars@.len() as int) =~= chars@);
        Some(OscTypeTag(types))
    }

    /// Whether this tag is of the one type `expected_type`.
    pub fn is_single_type(&self, expected_type: &OscType) -> (r: bool)
        ensures
            r == (self.types().len() == 1 && self.types()[0]@ == expected_type@),
    {
        self.0.len() == 1 && self.0[0] == *expected_type
    }

    /// Whether this tag is of one boolean type.
    pub fn is_boolean(&self) -> (r: bool)
        ensures
            r == (self.types().len() == 1 && (self.types()[0] is True
                || self.types()[0] is False)),
    {
        self.0.len() == 1 && self.0[0].is_boolean()
    }

    /// The type, where this tag is of one type.
    pub fn get_single_type(&self) -> (r: Option<&OscType>)
        ensures
            match r {
                Some(t) => self.types().len() == 1 && *t == self.types()[0],
                None => self.types().len() != 1,
            },
    {
        if self.0.len() == 1 {
            Some(&self.0[0])
        } else {
            None
        }
    }

    /// Whether `osc_type` is among the types.
    pub fn contains(&self, osc_type: &OscType) -> (r: bool)
        ensures
            r == exists|i: int| 0 <= i < self.types().len() && (#[trigger] self.types()[i])@
                == osc_type@,
    {
        let mut i: usize = 0;
        while i < self.0.len()
            invariant
                i <= self.0@.len(),
                self.types() == self.0@,
                forall|k: int| 0 <= k < i ==> (#[trigger] self.types()[k])@ != osc_type@,
            decreases self.0@.len() - i,
        {
            if self.0[i] == *osc_type {
                assert(self.types()[i as int]@ == osc_type@);
                return true;
            }
            i += 1;
        }
        false
    }

    /// The tag strings of the types, one after the other.
    pub fn tag(&self) -> (r: String)
        ensures
            r@ == tags_of(self.types()),
    {
        let mut r = String::new();
        let mut i: usize = 0;
        while i < self.0.len()
            invariant
                i <= self.0@.len(),
                r@ == tags_of(self.0@.take(i as int)),
            decreases self.0@.len() - i,
        {
            r.append(self.0[i].tag().as_str());
            assert(self.0@.take(i + 1).drop_last() =~= self.0@.take(i as int));
            i += 1;
        }
        assert(self.0@.take(self.0@.len() as int) =~= self.0@);
        r
    }
}

/// Two types are equal exactly if they have the same tag string.
pub proof fn law_equal_types_have_equal_tags(a: OscType, b: OscType)
    ensures
        a@ == b@ <==> a.spec_tag() == b.spec_tag(),
    decreases a, 1nat,
{
    if a.spec_tag() == b.spec_tag() {
        law_tag_is_injective(a, b);
    }
    if a@ == b@ && a is Array {
        assert(b is Array);
        lemma_equal_types_tags(a->Array_0@, b->Array_0@);
    }
}

proof fn lemma_equal_types_tags(a: Seq<OscType>, b: Seq<OscType>)
    requires
        types_view(a) == types_view(b),
    ensures
        tags_of(a) == tags_of(b),
    decreases a, 0nat,
{
    lemma_types_view(a);
    lemma_types_view(b);
    if a.len() > 0 {
        let last = a.len() - 1;
        assert(types_view(a).len() == types_view(b).len());
        assert(types_view(a)[last] == a[last]@);
        assert(types_view(b)[last] == b[last]@);
        assert(a.last()@ == b.last()@);
        assert(types_view(a.drop_last()) =~= types_view(a).drop_last());
        assert(types_view(b.drop_last()) =~= types_view(b).drop_last());
        law_equal_types_have_equal_tags(a.last(), b.last());
        lemma_equal_types_tags(a.drop_last(), b.drop_last());
    } else {
        assert(types_view(b).len() == 0);
        assert(tags_of(a) =~= tags_of(b));
    }
}

/// The tag string of an array is that of its types between brackets, and that of types one behind the
/// other is theirs one behind the other.
pub proof fn law_tags_one_behind_the_other(first: Seq<OscType>, second: Seq<OscType>, t: OscType)
    ensures
        tags_of(first + second) == tags_of(first) + tags_of(second),
        tags_of(seq![t]) == t.spec_tag(),
        tags_of(Seq::empty()) == Seq::<char>::empty(),
        t matches OscType::Array(types) ==> t.spec_tag() == seq!['['] + tags_of(types@) + seq![']'],
        !(t is Array) ==> t.spec_tag().len() == 1,
{
    lemma_tags_concat(first, second);
    assert(seq![t].drop_last() =~= Seq::<OscType>::empty());
    assert(tags_of(Seq::<OscType>::empty()) =~= Seq::<char>::empty());
    assert(seq![t].last() == t);
    assert(tags_of(seq![t]) =~= t.spec_tag());
}

/// A text is read as a type exactly if it is the tag string of some type, and what is read has that
/// tag string.
pub proof fn law_tag_strings_are_read(text: Seq<char>, read: Option<OscType>, t: OscType)
    requires
        is_type_named(text, read),
    ensures
        t.spec_tag() == text ==> read is Some,
        read matches Some(found) ==> found.spec_tag() == text,
{
}

/// A text is read as types whenever it is made up of the tag strings of types none of which is an
/// array of arrays; what is read has the text for its tag strings.
pub proof fn law_flat_tag_strings_are_read(
    text: Seq<char>,
    read: Option<OscTypeTag>,
    types: Seq<OscType>,
)
    requires
        are_types_named(text, read),
    ensures
        tags_of(types) == text && (forall|i: int, k: int|
            0 <= i < types.len() && types[i] is Array && 0 <= k < types[i]->Array_0@.len() ==> !(
            #[trigger] types[i]->Array_0@[k] is Array)) ==> read is Some && types_view(
            read->0.types(),
        ) == types_view(types),
        read matches Some(tag) ==> tags_of(tag.types()) == text,
{
    if tags_of(types) == text && (forall|i: int, k: int|
        0 <= i < types.len() && types[i] is Array && 0 <= k < types[i]->Array_0@.len() ==> !(
        #[trigger] types[i]->Array_0@[k] is Array)) {
        assert forall|i: int| 0 <= i < types.len() implies (#[trigger] types[i]).is_flat() by {
            if types[i] is Array {
                assert forall|k: int| 0 <= k < types[i]->Array_0@.len() implies !(
                #[trigger] types[i]->Array_0@[k] is Array) by {}
            }
        }
        assert(all_flat(types));
        law_types_read_back(types, read);
    }
}

/// Each basic type has its own character.
pub proof fn law_basic_tags()
    ensures
        OscType::Int32.spec_tag() == seq!['i'],
        OscType::Float32.spec_tag() == seq!['f'],
        OscType::OscString.spec_tag() == seq!['s'],
        OscType::OscBlob.spec_tag() == seq!['b'],
        OscType::Int64.spec_tag() == seq!['h'],
        OscType::Timetag.spec_tag() == seq!['t'],
        OscType::Double.spec_tag() == seq!['d'],
        OscType::Symbol.spec_tag() == seq!['S'],
        OscType::Char.spec_tag() == seq!['c'],
        OscType::RgbaColor.spec_tag() == seq!['r'],
        OscType::Midi.spec_tag() == seq!['m'],
        OscType::True.spec_tag() == seq!['T'],
        OscType::False.spec_tag() == seq!['F'],
        OscType::Nil.spec_tag() == seq!['N'],
        OscType::Infinitum.spec_tag() == seq!['I'],
{
}

} // verus!
