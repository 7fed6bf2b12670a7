//! Names and kinds of the services of an OSC application, and patterns to select them by.
use vstd::prelude::*;

use convert_case::Casing;

use crate::announce;
use crate::error::Error;
use crate::name;
use crate::name::{Name, NameView};
use crate::net::SocketAddr;
use crate::text;

verus! {

/// The service type of OSC servers.
pub open spec fn osc_type() -> Seq<char> {
    "_osc._udp.local."@
}

/// The service type of OSCQuery servers.
pub open spec fn query_type() -> Seq<char> {
    "_oscjson._tcp.local."@
}

/// What stands behind the name of an application in the name of its OSC server.
pub open spec fn osc_suffix() -> Seq<char> {
    "._osc._udp.local."@
}

/// What stands behind the name of an application in the name of its OSCQuery server.
pub open spec fn query_suffix() -> Seq<char> {
    "._oscjson._tcp.local."@
}

/// The service type of OSC servers, as a name.
pub open spec fn osc_type_name() -> NameView {
    NameView {
        labels: seq![
            seq![95u8, 111, 115, 99],
            seq![95u8, 117, 100, 112],
            seq![108u8, 111, 99, 97, 108],
        ],
        fqdn: true,
    }
}

/// The service type of OSCQuery servers, as a name.
pub open spec fn query_type_name() -> NameView {
    NameView {
        labels: seq![
            seq![95u8, 111, 115, 99, 106, 115, 111, 110],
            seq![95u8, 116, 99, 112],
            seq![108u8, 111, 99, 97, 108],
        ],
        fqdn: true,
    }
}

/// A service that was found, by its kind.
#[derive(Debug)]
pub enum ServiceType {
    /// An OSC server.
    Osc(Name, SocketAddr),
    /// An OSCQuery server.
    OscQuery(Name, SocketAddr),
}

/// What a service that was found is.
pub enum ServiceView {
    Osc(NameView, SocketAddr),
    OscQuery(NameView, SocketAddr),
}

impl ServiceType {
    /// What this service is.
    pub open spec fn view(&self) -> ServiceView {
        match self {
            ServiceType::Osc(n, addr) => ServiceView::Osc(n@, *addr),
            ServiceType::OscQuery(n, addr) => ServiceView::OscQuery(n@, *addr),
        }
    }
}

/// What the service in `s` is, if there is one.
pub open spec fn service_in(s: Option<ServiceType>) -> Option<ServiceView> {
    match s {
        Some(service) => Some(service@),
        None => None,
    }
}

/// The service `instance` by its kind, where its type is written `type_text`.
pub open spec fn service_of(
    instance: NameView,
    addr: SocketAddr,
    type_text: Seq<char>,
) -> Option<ServiceView> {
    if type_text == osc_type() {
        Some(ServiceView::Osc(instance, addr))
    } else if type_text == query_type() {
        Some(ServiceView::OscQuery(instance, addr))
    } else {
        None
    }
}

/// The service `instance` by its kind, where its type is written `type_text`.
pub fn service_of_type(instance: Name, addr: SocketAddr, type_text: &str) -> (r: Option<
    ServiceType,
>)
    ensures
        service_in(r) == service_of(instance@, addr, type_text@),
{
    if text::same_text(type_text, "_osc._udp.local.") {
        Some(ServiceType::Osc(instance, addr))
    } else if text::same_text(type_text, "_oscjson._tcp.local.") {
        Some(ServiceType::OscQuery(instance, addr))
    } else {
        None
    }
}

/// The service `instance` by its kind; none if it is neither an OSC nor an OSCQuery server.
pub fn service_found(instance: Name, addr: SocketAddr) -> (r: Option<ServiceType>)
    ensures
        service_in(r) == service_of(
            instance@,
            addr,
            name::ascii_text(announce::type_of(instance@)),
        ),
        name::safe_name(announce::type_of(instance@)) ==> service_in(r) == service_of(
            instance@,
            addr,
            name::dotted(announce::type_of(instance@)),
        ),
{
    let type_text = announce::service_type(&instance).to_ascii();
    service_of_type(instance, addr, type_text.as_str())
}

/// What [`convert_case::Casing::to_case`] makes of a text in upper camel case.
pub uninterp spec fn upper_camel(s: Seq<char>) -> Seq<char>;

/// [`convert_case::Casing::to_case`]: the text in upper camel case. Claimed: the result depends on
/// the text alone. Where its words begin and end is not said.
#[verifier::external_body]
fn to_case(s: &str) -> (r: String)
    ensures
        r@ == upper_camel(s@),
{
    s.to_case(convert_case::Case::UpperCamel)
}

/// `s` in upper camel case.
pub fn to_upper_camel(s: &str) -> (r: String)
    ensures
        r@ == upper_camel(s@),
{
    to_case(s)
}

/// Labels that are the same text are the same.
proof fn lemma_same_label(a: Seq<u8>, b: Seq<u8>)
    requires
        name::text_of(a) == name::text_of(b),
    ensures
        a == b,
{
    assert(name::text_of(a).len() == a.len() && name::text_of(b).len() == b.len());
    assert forall|i: int| 0 <= i < a.len() implies a[i] == b[i] by {
        assert(name::text_of(a)[i] == a[i] as char);
        assert(name::text_of(b)[i] == b[i] as char);
    }
    assert(a =~= b);
}

/// The service type of OSC servers is a valid name, and `_osc._udp.local.` is its text.
pub proof fn lemma_osc_type_name()
    ensures
        name::valid_labels(osc_type_name().labels),
        name::safe_name(osc_type_name()),
        name::dotted(osc_type_name()) == osc_type(),
        name::text_of(osc_type_name().labels[0]) == seq!['_', 'o', 's', 'c'],
        name::text_of(osc_type_name().labels[1]) == seq!['_', 'u', 'd', 'p'],
        name::text_of(osc_type_name().labels[2]) == seq!['l', 'o', 'c', 'a', 'l'],
{
    let labels = osc_type_name().labels;
    reveal_strlit("_osc._udp.local.");
    reveal_with_fuel(name::joined, 4);
    reveal_with_fuel(name::encoded_len, 4);
    assert(labels.drop_last() =~= seq![labels[0], labels[1]]);
    assert(labels.drop_last().drop_last() =~= seq![labels[0]]);
    assert(name::text_of(labels[0]) =~= seq!['_', 'o', 's', 'c']);
    assert(name::text_of(labels[1]) =~= seq!['_', 'u', 'd', 'p']);
    assert(name::text_of(labels[2]) =~= seq!['l', 'o', 'c', 'a', 'l']);
    assert(name::dotted(osc_type_name()) =~= osc_type());
    assert(labels.drop_last().drop_last().drop_last() =~= Seq::<Seq<u8>>::empty());
}

/// The service type of OSCQuery servers is a valid name, and `_oscjson._tcp.local.` is its text.
pub proof fn lemma_query_type_name()
    ensures
        name::valid_labels(query_type_name().labels),
        name::safe_name(query_type_name()),
        name::dotted(query_type_name()) == query_type(),
        name::text_of(query_type_name().labels[0]) == seq!['_', 'o', 's', 'c', 'j', 's', 'o', 'n'],
        name::text_of(query_type_name().labels[1]) == seq!['_', 't', 'c', 'p'],
        name::text_of(query_type_name().labels[2]) == seq!['l', 'o', 'c', 'a', 'l'],
{
    let labels = query_type_name().labels;
    reveal_strlit("_oscjson._tcp.local.");
    reveal_with_fuel(name::joined, 4);
    reveal_with_fuel(name::encoded_len, 4);
    assert(labels.drop_last() =~= seq![labels[0], labels[1]]);
    assert(labels.drop_last().drop_last() =~= seq![labels[0]]);
    assert(name::text_of(labels[0]) =~= seq!['_', 'o', 's', 'c', 'j', 's', 'o', 'n']);
    assert(name::text_of(labels[1]) =~= seq!['_', 't', 'c', 'p']);
    assert(name::text_of(labels[2]) =~= seq!['l', 'o', 'c', 'a', 'l']);
    assert(name::dotted(query_type_name()) =~= query_type());
    assert(labels.drop_last().drop_last().drop_last() =~= Seq::<Seq<u8>>::empty());
}

/// The service type of OSC servers.
pub fn osc_service_type() -> (r: Result<Name, Error>)
    ensures
        r matches Ok(n) && n@ == osc_type_name(),
{
    proof {
        lemma_osc_type_name();
    }
    Name::from_ascii("_osc._udp.local.")
}

/// The service type of OSCQuery servers.
pub fn query_service_type() -> (r: Result<Name, Error>)
    ensures
        r matches Ok(n) && n@ == query_type_name(),
{
    proof {
        lemma_query_type_name();
    }
    Name::from_ascii("_oscjson._tcp.local.")
}

/// The name of the OSC server of the application `camel`.
pub fn osc_name(camel: &str) -> (r: Result<Name, Error>)
    ensures
        name::name_in(r) == name::ascii_name(camel@ + osc_suffix()),
        name::reads_dotted(camel@ + osc_suffix(), name::name_in(r)),
        name::reads_ending(camel@ + osc_suffix(), name::name_in(r)),
        r matches Ok(n) ==> name::valid_labels(n@.labels),
        r matches Err(e) ==> e is MdnsProtoError,
{
    let full = text::joined(camel, "._osc._udp.local.");
    match Name::from_ascii(full.as_str()) {
        Ok(n) => {
            let _ = n.labels();
            Ok(n)
        },
        Err(e) => Err(e),
    }
}

/// The name of the OSCQuery server of the application `camel`.
pub fn query_name(camel: &str) -> (r: Result<Name, Error>)
    ensures
        name::name_in(r) == name::ascii_name(camel@ + query_suffix()),
        name::reads_dotted(camel@ + query_suffix(), name::name_in(r)),
        name::reads_ending(camel@ + query_suffix(), name::name_in(r)),
        r matches Ok(n) ==> name::valid_labels(n@.labels),
        r matches Err(e) ==> e is MdnsProtoError,
{
    let full = text::joined(camel, "._oscjson._tcp.local.");
    match Name::from_ascii(full.as_str()) {
        Ok(n) => {
            let _ = n.labels();
            Ok(n)
        },
        Err(e) => Err(e),
    }
}

/// A label that needs no escaping holds no dot.
proof fn lemma_no_dot(label: Seq<u8>)
    requires
        name::safe_label(label),
    ensures
        !name::text_of(label).contains('.'),
{
    let t = name::text_of(label);
    assert forall|i: int| 0 <= i < t.len() implies #[trigger] t[i] != '.' by {
        assert(name::safe_byte(label[i], i == 0));
        assert(t[i] == label[i] as char);
    }
}

/// The last of several labels with dots between them is what stands behind the last dot.
proof fn lemma_joined_last(labels: Seq<Seq<u8>>, front: Seq<char>, back: Seq<char>)
    requires
        labels.len() > 0,
        forall|i: int| 0 <= i < labels.len() ==> name::safe_label(#[trigger] labels[i]),
        name::joined(labels) == front + seq!['.'] + back,
        !back.contains('.'),
    ensures
        labels.len() > 1,
        name::text_of(labels.last()) == back,
        name::joined(labels.drop_last()) == front,
{
    let all = name::joined(labels);
    assert(all[front.len() as int] == '.');
    lemma_no_dot(labels.last());
    let last = name::text_of(labels.last());
    if labels.len() == 1 {
        assert(all == last);
        assert(last.contains('.'));
    } else {
        let head = name::joined(labels.drop_last());
        assert(all == head + seq!['.'] + last);
        assert(all[head.len() as int] == '.');
        if head.len() < front.len() {
            let k = front.len() - head.len() - 1;
            assert(all.len() == front.len() + 1 + back.len());
            assert((head + seq!['.'] + last)[head.len() + 1 + k] == last[k]);
            assert(last[k] == all[front.len() as int]);
            assert(last.contains('.'));
        }
        if head.len() > front.len() {
            let k = head.len() - front.len() - 1;
            assert(back[k] == all[head.len() as int]);
            assert(back.contains('.'));
        }
        assert forall|i: int| 0 <= i < front.len() implies front[i] == head[i] by {
            assert(all[i] == front[i]);
            assert(all[i] == head[i]);
        }
        assert(head =~= front);
        assert forall|i: int| 0 <= i < back.len() implies back[i] == last[i] by {
            assert(all[front.len() + 1 + i] == back[i]);
            assert(all[front.len() + 1 + i] == last[i]);
        }
        assert(last =~= back);
    }
}

/// A name that is read from three labels behind a text ends in these three.
proof fn lemma_type_of(n: NameView, camel: Seq<char>, a: Seq<char>, b: Seq<char>, c: Seq<char>)
    requires
        name::valid_labels(n.labels),
        name::safe_name(n),
        name::dotted(n) == camel + seq!['.'] + a + seq!['.'] + b + seq!['.'] + c + seq!['.'],
        !a.contains('.'),
        !b.contains('.'),
        !c.contains('.'),
    ensures
        name::safe_name(announce::type_of(n)),
        name::dotted(announce::type_of(n)) == a + seq!['.'] + b + seq!['.'] + c + seq!['.'],
        n.fqdn,
        n.labels.len() > 3,
        announce::type_of(n).fqdn,
        announce::type_of(n).labels.len() == 3,
        name::text_of(announce::type_of(n).labels[0]) == a,
        name::text_of(announce::type_of(n).labels[1]) == b,
        name::text_of(announce::type_of(n).labels[2]) == c,
{
    let all = camel + seq!['.'] + a + seq!['.'] + b + seq!['.'] + c;
    let text = name::dotted(n);
    let labels = n.labels;
    assert(text == all + seq!['.']);
    assert(text[all.len() as int] == '.');
    if labels.len() == 0 {
        assert(text.len() <= 1);
    }
    if !n.fqdn {
        let last = name::text_of(labels.last());
        lemma_no_dot(labels.last());
        assert(last.len() > 0) by {
            assert(name::valid_label(labels[labels.len() - 1]));
        }
        assert(text.last() == last.last());
        assert(last[last.len() - 1] == '.');
        assert(last.contains('.'));
    }
    assert(name::joined(labels) =~= all) by {
        assert(text == name::joined(labels) + seq!['.']);
        assert(name::joined(labels) =~= text.take(text.len() - 1));
        assert(all =~= text.take(text.len() - 1));
    }
    let x = camel + seq!['.'] + a + seq!['.'] + b;
    assert(all =~= x + seq!['.'] + c);
    lemma_joined_last(labels, x, c);
    let l1 = labels.drop_last();
    let y = camel + seq!['.'] + a;
    assert(x =~= y + seq!['.'] + b);
    assert forall|i: int| 0 <= i < l1.len() implies name::safe_label(#[trigger] l1[i]) by {
        assert(l1[i] == labels[i]);
    }
    lemma_joined_last(l1, y, b);
    let l2 = l1.drop_last();
    assert forall|i: int| 0 <= i < l2.len() implies name::safe_label(#[trigger] l2[i]) by {
        assert(l2[i] == labels[i]);
    }
    lemma_joined_last(l2, camel, a);
    let count = labels.len();
    let t = announce::type_of(n);
    assert(t.labels =~= seq![labels[count - 3], labels[count - 2], labels[count - 1]]);
    assert(l1.last() == labels[count - 2]);
    assert(l2.last() == labels[count - 3]);
    assert forall|i: int| 0 <= i < t.labels.len() implies name::safe_label(
        #[trigger] t.labels[i],
    ) by {
        assert(t.labels[i] == labels[count - 3 + i]);
    }
    reveal_with_fuel(name::joined, 3);
    assert(t.labels.drop_last() =~= seq![labels[count - 3], labels[count - 2]]);
    assert(t.labels.drop_last().drop_last() =~= seq![labels[count - 3]]);
    assert(name::joined(t.labels) =~= a + seq!['.'] + b + seq!['.'] + c);
    assert(name::dotted(t) =~= a + seq!['.'] + b + seq!['.'] + c + seq!['.']);
}

/// The name of the OSC server of an application, made of a text without escapes, is of the service
/// type of OSC servers.
pub proof fn law_osc_name_has_osc_type(camel: Seq<char>, n: NameView)
    requires
        !camel.contains('\\'),
        name::valid_labels(n.labels),
        name::reads_dotted(camel + osc_suffix(), Some(n)),
    ensures
        announce::type_of(n) == osc_type_name(),
        name::safe_name(announce::type_of(n)),
        name::dotted(announce::type_of(n)) == osc_type(),
        n.fqdn,
        n.labels.len() > 3,
{
    reveal_strlit("._osc._udp.local.");
    reveal_strlit("_osc._udp.local.");
    let a = seq!['_', 'o', 's', 'c'];
    let b = seq!['_', 'u', 'd', 'p'];
    let c = seq!['l', 'o', 'c', 'a', 'l'];
    let text = camel + osc_suffix();
    assert(text =~= camel + seq!['.'] + a + seq!['.'] + b + seq!['.'] + c + seq!['.']);
    assert forall|i: int| 0 <= i < text.len() implies #[trigger] text[i] != '\\' by {
        if i < camel.len() {
            assert(camel[i] != '\\');
        } else {
            assert(text[i] == osc_suffix()[i - camel.len()]);
        }
    }
    assert(!text.contains('\\'));
    lemma_type_of(n, camel, a, b, c);
    assert(osc_type() =~= a + seq!['.'] + b + seq!['.'] + c + seq!['.']);
    lemma_osc_type_name();
    let t = announce::type_of(n);
    lemma_same_label(t.labels[0], osc_type_name().labels[0]);
    lemma_same_label(t.labels[1], osc_type_name().labels[1]);
    lemma_same_label(t.labels[2], osc_type_name().labels[2]);
    assert(t.labels =~= osc_type_name().labels);
}

/// The name of the OSCQuery server of an application, made of a text without escapes, is of the
/// service type of OSCQuery servers.
pub proof fn law_query_name_has_query_type(camel: Seq<char>, n: NameView)
    requires
        !camel.contains('\\'),
        name::valid_labels(n.labels),
        name::reads_dotted(camel + query_suffix(), Some(n)),
    ensures
        announce::type_of(n) == query_type_name(),
        name::safe_name(announce::type_of(n)),
        name::dotted(announce::type_of(n)) == query_type(),
        n.fqdn,
        n.labels.len() > 3,
{
    reveal_strlit("._oscjson._tcp.local.");
    reveal_strlit("_oscjson._tcp.local.");
    let a = seq!['_', 'o', 's', 'c', 'j', 's', 'o', 'n'];
    let b = seq!['_', 't', 'c', 'p'];
    let c = seq!['l', 'o', 'c', 'a', 'l'];
    let text = camel + query_suffix();
    assert(text =~= camel + seq!['.'] + a + seq!['.'] + b + seq!['.'] + c + seq!['.']);
    assert forall|i: int| 0 <= i < text.len() implies #[trigger] text[i] != '\\' by {
        if i < camel.len() {
            assert(camel[i] != '\\');
        } else {
            assert(text[i] == query_suffix()[i - camel.len()]);
        }
    }
    assert(!text.contains('\\'));
    lemma_type_of(n, camel, a, b, c);
    assert(query_type() =~= a + seq!['.'] + b + seq!['.'] + c + seq!['.']);
    lemma_query_type_name();
    let t = announce::type_of(n);
    lemma_same_label(t.labels[0], query_type_name().labels[0]);
    lemma_same_label(t.labels[1], query_type_name().labels[1]);
    lemma_same_label(t.labels[2], query_type_name().labels[2]);
    assert(t.labels =~= query_type_name().labels);
}

/// An OSC server and an OSCQuery server are told apart.
pub proof fn law_kinds_differ(instance: NameView, addr: SocketAddr)
    ensures
        service_of(instance, addr, osc_type()) == Some(ServiceView::Osc(instance, addr)),
        service_of(instance, addr, query_type()) == Some(ServiceView::OscQuery(instance, addr)),
{
    reveal_strlit("_osc._udp.local.");
    reveal_strlit("_oscjson._tcp.local.");
    assert(osc_type().len() != query_type().len());
}

/// `text` matches `pattern`, in which a question mark stands for one character and an asterisk for
/// any number of them.
pub open spec fn glob(pattern: Seq<char>, text: Seq<char>) -> bool
    decreases pattern.len(), text.len(),
{
    if pattern.len() == 0 {
        text.len() == 0
    } else if pattern[0] == '*' {
        glob(pattern.skip(1), text) || (text.len() > 0 && glob(pattern, text.skip(1)))
    } else {
        text.len() > 0 && (pattern[0] == '?' || pattern[0] == text[0]) && glob(
            pattern.skip(1),
            text.skip(1),
        )
    }
}

/// [`wildmatch::WildMatch::matches`]: whether the text matches the pattern, in which a question mark
/// stands for one character and an asterisk for any number of them.
#[verifier::external_body]
fn wild_match(pattern: &str, text: &str) -> (r: bool)
    ensures
        r == glob(pattern@, text@),
{
    wildmatch::WildMatch::new(pattern).matches(text)
}

/// Whether `text` matches `pattern`.
pub fn matches_pattern(pattern: &str, text: &str) -> (r: bool)
    ensures
        r == glob(pattern@, text@),
{
    wild_match(pattern, text)
}

/// Nothing in `pattern` stands for anything but itself.
pub open spec fn literal(pattern: Seq<char>) -> bool {
    forall|i: int|
        0 <= i < pattern.len() ==> (#[trigger] pattern[i]) != '*' && pattern[i] != '?'
}

proof fn lemma_glob_front(front: Seq<char>, rest: Seq<char>, text: Seq<char>)
    requires
        literal(front),
    ensures
        glob(front + rest, text) <==> front.len() <= text.len() && text.take(front.len() as int)
            == front && glob(rest, text.skip(front.len() as int)),
    decreases front.len(),
{
    let p = front + rest;
    if front.len() == 0 {
        assert(p =~= rest);
        assert(text.take(0) =~= front);
        assert(text.skip(0) =~= text);
    } else {
        assert(p[0] == front[0]);
        assert(p.skip(1) =~= front.skip(1) + rest);
        assert(front[0] != '*' && front[0] != '?');
        if text.len() > 0 {
            let tail = text.skip(1);
            assert forall|i: int| 0 <= i < front.skip(1).len() implies (#[trigger] front.skip(1)[i])
                != '*' && front.skip(1)[i] != '?' by {
                assert(front.skip(1)[i] == front[i + 1]);
            }
            lemma_glob_front(front.skip(1), rest, tail);
            let n = front.len() as int;
            if n <= text.len() {
                assert(tail.skip(n - 1) =~= text.skip(n));
                if text.take(n) == front {
                    assert(text[0] == text.take(n)[0]);
                    assert forall|i: int| 0 <= i < n - 1 implies tail.take(n - 1)[i]
                        == front.skip(1)[i] by {
                        assert(text.take(n)[i + 1] == front[i + 1]);
                    }
                    assert(tail.take(n - 1) =~= front.skip(1));
                }
                if text[0] == front[0] && tail.take(n - 1) == front.skip(1) {
                    assert forall|i: int| 0 <= i < n implies text.take(n)[i] == front[i] by {
                        if i > 0 {
                            assert(tail.take(n - 1)[i - 1] == front.skip(1)[i - 1]);
                        }
                    }
                    assert(text.take(n) =~= front);
                }
            }
        }
    }
}

proof fn lemma_glob_literal(pattern: Seq<char>, text: Seq<char>)
    requires
        literal(pattern),
    ensures
        glob(pattern, text) <==> pattern == text,
{
    lemma_glob_front(pattern, Seq::empty(), text);
    assert(pattern + Seq::<char>::empty() =~= pattern);
    if pattern.len() <= text.len() && text.take(pattern.len() as int) == pattern && text.skip(
        pattern.len() as int,
    ).len() == 0 {
        assert(text.take(pattern.len() as int) =~= text);
    }
    if pattern == text {
        assert(text.take(pattern.len() as int) =~= pattern);
    }
}

proof fn lemma_glob_star(back: Seq<char>, text: Seq<char>)
    requires
        literal(back),
    ensures
        glob(seq!['*'] + back, text) <==> back.len() <= text.len() && text.skip(
            text.len() - back.len(),
        ) == back,
    decreases text.len(),
{
    let p = seq!['*'] + back;
    assert(p[0] == '*');
    assert(p.skip(1) =~= back);
    lemma_glob_literal(back, text);
    if text.len() > 0 {
        let tail = text.skip(1);
        lemma_glob_star(back, tail);
        if back.len() <= tail.len() {
            assert(tail.skip(tail.len() - back.len()) =~= text.skip(text.len() - back.len()));
        } else if back.len() == text.len() {
            assert(text.skip(0) =~= text);
        }
    } else {
        assert(back.len() == 0 ==> text.skip(0) =~= back);
    }
}

/// A pattern without wildcards matches itself and nothing else.
pub proof fn law_plain_pattern(pattern: Seq<char>, text: Seq<char>)
    requires
        literal(pattern),
    ensures
        glob(pattern, text) <==> pattern == text,
{
    lemma_glob_literal(pattern, text);
}

/// A pattern with one asterisk in it matches every text that begins with what stands before it and,
/// behind that, ends in what stands after it.
pub proof fn law_prefix_pattern(front: Seq<char>, back: Seq<char>, text: Seq<char>)
    requires
        literal(front),
        literal(back),
    ensures
        glob(front + seq!['*'] + back, text) <==> front.len() + back.len() <= text.len()
            && text.take(front.len() as int) == front && text.skip(text.len() - back.len()) == back,
{
    let rest = seq!['*'] + back;
    assert(front + seq!['*'] + back =~= front + rest);
    lemma_glob_front(front, rest, text);
    if front.len() <= text.len() {
        let tail = text.skip(front.len() as int);
        lemma_glob_star(back, tail);
        if back.len() <= tail.len() {
            assert(tail.skip(tail.len() - back.len()) =~= text.skip(text.len() - back.len()));
        }
    }
}

/// A question mark matches any one character; an asterisk matches any number of them, also none; any
/// other character matches itself.
pub proof fn law_wildcards(c: char, rest: Seq<char>, text: Seq<char>)
    ensures
        glob(Seq::empty(), text) <==> text.len() == 0,
        glob(seq!['?'] + rest, text) <==> text.len() > 0 && glob(rest, text.skip(1)),
        glob(seq!['*'] + rest, text) <==> exists|k: int|
            0 <= k <= text.len() && #[trigger] glob(rest, text.skip(k)),
        c != '*' && c != '?' ==> (glob(seq![c] + rest, text) <==> text.len() > 0 && text[0] == c
            && glob(rest, text.skip(1))),
    decreases text.len(),
{
    assert((seq!['?'] + rest).skip(1) =~= rest);
    assert((seq![c] + rest).skip(1) =~= rest);
    let star = seq!['*'] + rest;
    assert(star[0] == '*');
    assert(star.skip(1) =~= rest);
    assert(text.skip(0) =~= text);
    if text.len() > 0 {
        let tail = text.skip(1);
        law_wildcards(c, rest, tail);
        if glob(star, tail) {
            let k = choose|k: int| 0 <= k <= tail.len() && #[trigger] glob(rest, tail.skip(k));
            assert(tail.skip(k) =~= text.skip(k + 1));
            assert(glob(rest, text.skip(k + 1)));
        }
        if exists|k: int| 0 <= k <= text.len() && #[trigger] glob(rest, text.skip(k)) {
            let k = choose|k: int| 0 <= k <= text.len() && #[trigger] glob(rest, text.skip(k));
            if k > 0 {
                assert(tail.skip(k - 1) =~= text.skip(k));
                assert(glob(rest, tail.skip(k - 1)));
            }
        }
        if glob(rest, text) {
            assert(glob(rest, text.skip(0)));
        }
    } else {
        if glob(rest, text) {
            assert(glob(rest, text.skip(0)));
        }
        if exists|k: int| 0 <= k <= text.len() && #[trigger] glob(rest, text.skip(k)) {
            let k = choose|k: int| 0 <= k <= text.len() && #[trigger] glob(rest, text.skip(k));
            assert(text.skip(k) =~= text);
        }
    }
}

/// A service is an OSC server exactly if its type is written `_osc._udp.local.`, an OSCQuery server
/// exactly if that is `_oscjson._tcp.local.`, and else neither.
pub proof fn law_kind_by_type(instance: NameView, addr: SocketAddr, type_text: Seq<char>)
    ensures
        service_of(instance, addr, type_text) == Some(ServiceView::Osc(instance, addr))
            <==> type_text == "_osc._udp.local."@,
        service_of(instance, addr, type_text) == Some(ServiceView::OscQuery(instance, addr))
            <==> type_text == "_oscjson._tcp.local."@,
        service_of(instance, addr, type_text) is None <==> type_text != "_osc._udp.local."@
            && type_text != "_oscjson._tcp.local."@,
{
    law_kinds_differ(instance, addr);
}

/// What a service that was found is shows its kind, its name and its address.
pub proof fn law_service_view(s: ServiceType)
    ensures
        s matches ServiceType::Osc(n, addr) ==> service_in(Some(s)) == Some(
            ServiceView::Osc(n@, addr),
        ),
        s matches ServiceType::OscQuery(n, addr) ==> service_in(Some(s)) == Some(
            ServiceView::OscQuery(n@, addr),
        ),
        service_in(None) is None,
{
}

} // verus!
