//! Domain names.
use vstd::prelude::*;

use crate::assoc::AssocKey;
use crate::error::Error;

verus! {

/// A domain name: its labels from the left, and whether it is fully qualified.
#[derive(Debug)]
pub struct Name {
    pub(crate) labels: Vec<Vec<u8>>,
    pub(crate) fqdn: bool,
}

/// What a domain name is.
#[verifier::ext_equal]
pub struct NameView {
    pub labels: Seq<Seq<u8>>,
    pub fqdn: bool,
}

/// The bytes of each label.
pub open spec fn bytes_of(labels: Seq<Vec<u8>>) -> Seq<Seq<u8>> {
    labels.map_values(|l: Vec<u8>| l@)
}

/// Number of bytes that names with these labels take in a message: one before each label, and one
/// at the end.
pub open spec fn encoded_len(labels: Seq<Seq<u8>>) -> nat
    decreases labels.len(),
{
    if labels.len() == 0 {
        1
    } else {
        encoded_len(labels.drop_last()) + labels.last().len() + 1
    }
}

/// A label has 1 to 63 bytes.
pub open spec fn valid_label(label: Seq<u8>) -> bool {
    1 <= label.len() <= 63
}

/// Every label is valid, and the name takes at most 255 bytes in a message.
pub open spec fn valid_labels(labels: Seq<Seq<u8>>) -> bool {
    &&& encoded_len(labels) <= 255
    &&& forall|i: int| 0 <= i < labels.len() ==> valid_label(#[trigger] labels[i])
}

/// `b` in lower case.
pub open spec fn lower(b: u8) -> u8 {
    if 65 <= b <= 90 {
        (b + 32) as u8
    } else {
        b
    }
}

/// `label` in lower case.
pub open spec fn lower_label(label: Seq<u8>) -> Seq<u8> {
    label.map_values(|b: u8| lower(b))
}

/// `n` in lower case: what is the same of all names that are equal.
pub open spec fn folded(n: NameView) -> NameView {
    NameView { labels: n.labels.map_values(|l: Seq<u8>| lower_label(l)), fqdn: n.fqdn }
}

/// The last `count` labels of `n` as a fully qualified name; `n` itself where it has fewer.
pub open spec fn trimmed(n: NameView, count: nat) -> NameView {
    if count > n.labels.len() {
        n
    } else {
        NameView { labels: n.labels.skip(n.labels.len() - count), fqdn: true }
    }
}

/// Number of labels of `n`, without a wildcard in front.
pub open spec fn label_count(n: NameView) -> nat {
    if n.labels.len() > 0 && n.labels[0] == seq![42u8] {
        (n.labels.len() - 1) as nat
    } else {
        n.labels.len()
    }
}

/// `b` is a letter, a digit or an underscore; or a dash that is not the first byte of its label, or
/// an asterisk that is.
pub open spec fn safe_byte(b: u8, first: bool) -> bool {
    ||| 48 <= b <= 57
    ||| 65 <= b <= 90
    ||| 97 <= b <= 122
    ||| b == 95
    ||| b == 45 && !first
    ||| b == 42 && first
}

/// `label` needs no escaping in text.
pub open spec fn safe_label(label: Seq<u8>) -> bool {
    forall|i: int| 0 <= i < label.len() ==> safe_byte(#[trigger] label[i], i == 0)
}

/// No label of `n` needs escaping in text.
pub open spec fn safe_name(n: NameView) -> bool {
    forall|i: int| 0 <= i < n.labels.len() ==> safe_label(#[trigger] n.labels[i])
}

/// The characters with these codes.
pub open spec fn text_of(label: Seq<u8>) -> Seq<char> {
    label.map_values(|b: u8| b as char)
}

/// The labels as text, with a dot between each two.
pub open spec fn joined(labels: Seq<Seq<u8>>) -> Seq<char>
    decreases labels.len(),
{
    if labels.len() == 0 {
        Seq::empty()
    } else if labels.len() == 1 {
        text_of(labels[0])
    } else {
        joined(labels.drop_last()) + seq!['.'] + text_of(labels.last())
    }
}

/// `n` as text: its labels with dots between, and a dot behind where it is fully qualified.
pub open spec fn dotted(n: NameView) -> Seq<char> {
    if n.fqdn {
        joined(n.labels) + seq!['.']
    } else {
        joined(n.labels)
    }
}

/// What [`hickory_proto::rr::Name::from_ascii`] reads from a text.
pub uninterp spec fn ascii_name(text: Seq<char>) -> Option<NameView>;

/// What [`hickory_proto::rr::Name::to_ascii`] writes for a name.
pub uninterp spec fn ascii_text(n: NameView) -> Seq<char>;

/// `read` is what a text without escapes stands for: names made of labels that need no escaping,
/// in the dotted form. The dotted form of a valid name without a need for escapes stands for that
/// name.
pub open spec fn reads_dotted(text: Seq<char>, read: Option<NameView>) -> bool {
    &&& read matches Some(n) ==> !text.contains('\\') ==> safe_name(n) && dotted(n) == text
    &&& forall|n: NameView|
        valid_labels(n.labels) && safe_name(n) && #[trigger] dotted(n) == text ==> read == Some(n)
}

/// `front` with the labels `a` and `b` behind it.
pub open spec fn ending(front: Seq<char>, a: Seq<char>, b: Seq<char>) -> Seq<char> {
    front + seq!['.'] + a + seq!['.'] + b + seq!['.']
}

/// `s` holds neither dots nor escapes.
pub open spec fn unescaped(s: Seq<char>) -> bool {
    !s.contains('.') && !s.contains('\\')
}

/// Where two labels without escapes stand at the end of a text, behind a dot that is not escaped,
/// the name that it stands for ends in these two.
pub open spec fn reads_ending(text: Seq<char>, read: Option<NameView>) -> bool {
    forall|front: Seq<char>, a: Seq<char>, b: Seq<char>|
        text == #[trigger] ending(front, a, b) && front.len() > 0 && front.last() != '\\'
            && unescaped(a) && unescaped(b) ==> (read matches Some(n) ==> {
            &&& n.fqdn
            &&& n.labels.len() >= 2
            &&& text_of(n.labels[n.labels.len() - 2]) == a
            &&& text_of(n.labels.last()) == b
        })
}

/// What the name in `r` is, if there is one.
pub open spec fn name_in<E>(r: Result<Name, E>) -> Option<NameView> {
    match r {
        Ok(name) => Some(name@),
        Err(_) => None,
    }
}

/// [`hickory_proto::rr::Name::from_ascii`]: the name that a text stands for. Claimed: the result
/// depends on the text alone; what is read from a text without escapes is made of labels that need
/// none, and is that text in the dotted form; the dotted form of a valid name whose labels need no
/// escaping is read back as that name; and two labels without escapes at the end of any text are the
/// last two of the name. What a text with escapes stands for is not said beyond that.
#[verifier::external_body]
fn read_ascii(text: &str) -> (r: Result<Name, hickory_proto::ProtoError>)
    ensures
        name_in(r) == ascii_name(text@),
        reads_dotted(text@, name_in(r)),
        reads_ending(text@, name_in(r)),
{
    hickory_proto::rr::Name::from_ascii(text).map(
        |n| Name { labels: n.iter().map(|l| l.to_vec()).collect(), fqdn: n.is_fqdn() },
    )
}

/// [`hickory_proto::rr::Name::to_ascii`]: a name as text, with escapes where they are needed.
/// Claimed: the text depends on the name alone, and is the dotted form where no label needs
/// escaping. How other labels are escaped is not said.
#[verifier::external_body]
fn write_ascii(name: &Name) -> (r: String)
    ensures
        r@ == ascii_text(name@),
        safe_name(name@) ==> r@ == dotted(name@),
{
    let mut n = hickory_proto::rr::Name::from_labels(name.labels.clone()).unwrap();
    n.set_fqdn(name.fqdn);
    n.to_ascii()
}

proof fn lemma_encoded_suffix(labels: Seq<Seq<u8>>, from: int)
    requires
        0 <= from <= labels.len(),
    ensures
        encoded_len(labels.skip(from)) <= encoded_len(labels),
    decreases labels.len() - from,
{
    if from == labels.len() {
        assert(labels.skip(from) =~= Seq::<Seq<u8>>::empty());
        lemma_encoded_positive(labels);
    } else {
        let s = labels.skip(from);
        assert(s.drop_last() =~= labels.drop_last().skip(from));
        lemma_encoded_suffix(labels.drop_last(), from);
        assert(s.last() == labels.last());
    }
}

proof fn lemma_encoded_positive(labels: Seq<Seq<u8>>)
    ensures
        encoded_len(labels) >= 1,
        encoded_len(labels) >= labels.len(),
    decreases labels.len(),
{
    if labels.len() > 0 {
        lemma_encoded_positive(labels.drop_last());
    }
}

fn lower_byte(b: u8) -> (r: u8)
    ensures
        r == lower(b),
{
    if 65 <= b && b <= 90 {
        b + 32
    } else {
        b
    }
}

fn same_label(a: &Vec<u8>, b: &Vec<u8>) -> (r: bool)
    ensures
        r == (lower_label(a@) == lower_label(b@)),
{
    if a.len() != b.len() {
        assert(lower_label(a@).len() != lower_label(b@).len());
        return false;
    }
    let mut i: usize = 0;
    while i < a.len()
        invariant
            a@.len() == b@.len(),
            i <= a@.len(),
            forall|j: int| 0 <= j < i ==> lower(#[trigger] a@[j]) == lower(b@[j]),
        decreases a@.len() - i,
    {
        if lower_byte(a[i]) != lower_byte(b[i]) {
            assert(lower_label(a@)[i as int] != lower_label(b@)[i as int]);
            return false;
        }
        i += 1;
    }
    assert(lower_label(a@) =~= lower_label(b@));
    true
}

fn copy_labels(labels: &Vec<Vec<u8>>, from: usize) -> (r: Vec<Vec<u8>>)
    requires
        from <= labels@.len(),
    ensures
        bytes_of(r@) == bytes_of(labels@).skip(from as int),
{
    let mut r: Vec<Vec<u8>> = Vec::new();
    let mut i: usize = from;
    while i < labels.len()
        invariant
            from <= i <= labels@.len(),
            bytes_of(r@) == bytes_of(labels@).subrange(from as int, i as int),
        decreases labels@.len() - i,
    {
        let label = copy_bytes(&labels[i]);
        let ghost before = r@;
        r.push(label);
        assert(bytes_of(r@) =~= bytes_of(before).push(label@));
        assert(bytes_of(labels@).subrange(from as int, i + 1) =~= bytes_of(labels@).subrange(
            from as int,
            i as int,
        ).push(labels@[i as int]@));
        i += 1;
    }
    assert(bytes_of(r@) =~= bytes_of(labels@).skip(from as int));
    r
}

/// The same bytes again.
pub(crate) fn copy_bytes(bytes: &Vec<u8>) -> (r: Vec<u8>)
    ensures
        r@ == bytes@,
{
    let mut r: Vec<u8> = Vec::new();
    let mut i: usize = 0;
    while i < bytes.len()
        invariant
            i <= bytes@.len(),
            r@ == bytes@.take(i as int),
        decreases bytes@.len() - i,
    {
        r.push(bytes[i]);
        assert(bytes@.take(i + 1) =~= bytes@.take(i as int).push(bytes@[i as int]));
        i += 1;
    }
    assert(bytes@.take(bytes@.len() as int) =~= bytes@);
    r
}

impl Name {
    /// Every name is valid.
    #[verifier::type_invariant]
    pub closed spec fn valid(&self) -> bool {
        valid_labels(bytes_of(self.labels@))
    }

    /// What this name is.
    pub closed spec fn view(&self) -> NameView {
        NameView { labels: bytes_of(self.labels@), fqdn: self.fqdn }
    }

    /// The name with these labels, if they make up a valid one.
    pub fn new(labels: Vec<Vec<u8>>, fqdn: bool) -> (r: Option<Name>)
        ensures
            match r {
                Some(name) => valid_labels(bytes_of(labels@)) && name@ == (NameView {
                    labels: bytes_of(labels@),
                    fqdn,
                }),
                None => !valid_labels(bytes_of(labels@)),
            },
    {
        let ghost all = bytes_of(labels@);
        let mut len: usize = 1;
        let mut i: usize = 0;
        assert(all.take(0) =~= Seq::<Seq<u8>>::empty());
        while i < labels.len()
            invariant
                all == bytes_of(labels@),
                i <= labels@.len(),
                len == encoded_len(all.take(i as int)),
                len <= 255,
                forall|j: int| 0 <= j < i ==> valid_label(#[trigger] all[j]),
            decreases labels@.len() - i,
        {
            assert(all[i as int] == labels@[i as int]@);
            if labels[i].len() == 0 || labels[i].len() > 63 {
                assert(!valid_label(all[i as int]));
                return None;
            }
            assert(all.take(i + 1).drop_last() =~= all.take(i as int));
            if len + labels[i].len() + 1 > 255 {
                proof {
                    lemma_encoded_prefix(all, i + 1);
                }
                return None;
            }
            len = len + labels[i].len() + 1;
            i += 1;
        }
        assert(all.take(i as int) =~= all);
        Some(Name { labels, fqdn })
    }

    /// The labels from the left.
    pub fn labels(&self) -> (r: &Vec<Vec<u8>>)
        ensures
            bytes_of(r@) == self@.labels,
            valid_labels(self@.labels),
    {
        proof {
            use_type_invariant(self);
        }
        &self.labels
    }

    /// Whether the name is fully qualified.
    pub fn is_fqdn(&self) -> (r: bool)
        ensures
            r == self@.fqdn,
    {
        self.fqdn
    }

    /// The same name again.
    pub fn copy(&self) -> (r: Name)
        ensures
            r@ == self@,
    {
        proof {
            use_type_invariant(self);
        }
        let labels = copy_labels(&self.labels, 0);
        assert(bytes_of(self.labels@).skip(0) =~= bytes_of(self.labels@));
        Name { labels, fqdn: self.fqdn }
    }

    /// The last `num_labels` labels as a fully qualified name; the name itself where it has fewer.
    pub fn trim_to(&self, num_labels: usize) -> (r: Name)
        ensures
            r@ == trimmed(self@, num_labels as nat),
    {
        if num_labels > self.labels.len() {
            return self.copy();
        }
        let from: usize = self.labels.len() - num_labels;
        proof {
            use_type_invariant(self);
            lemma_encoded_suffix(bytes_of(self.labels@), from as int);
        }
        let labels = copy_labels(&self.labels, from);
        Name { labels, fqdn: true }
    }

    /// Number of labels, without a wildcard in front.
    pub fn num_labels(&self) -> (r: usize)
        ensures
            r == label_count(self@),
    {
        if self.labels.len() > 0 && self.labels[0].len() == 1 && self.labels[0][0] == 42 {
            assert(self@.labels[0] =~= seq![42u8]);
            self.labels.len() - 1
        } else {
            assert(self@.labels.len() > 0 ==> self@.labels[0] == self.labels@[0]@);
            self.labels.len()
        }
    }

    /// Whether the names are equal, whatever the case of their letters.
    pub fn same_name(&self, other: &Name) -> (r: bool)
        ensures
            r == (folded(self@) == folded(other@)),
    {
        if self.fqdn != other.fqdn || self.labels.len() != other.labels.len() {
            assert(folded(self@).labels.len() == self.labels@.len());
            assert(folded(other@).labels.len() == other.labels@.len());
            return false;
        }
        let mut i: usize = 0;
        while i < self.labels.len()
            invariant
                self.labels@.len() == other.labels@.len(),
                i <= self.labels@.len(),
                forall|j: int|
                    0 <= j < i ==> lower_label(#[trigger] self.labels@[j]@) == lower_label(
                        other.labels@[j]@,
                    ),
            decreases self.labels@.len() - i,
        {
            if !same_label(&self.labels[i], &other.labels[i]) {
                assert(folded(self@).labels[i as int] != folded(other@).labels[i as int]);
                return false;
            }
            i += 1;
        }
        assert(folded(self@).labels =~= folded(other@).labels);
        true
    }

    /// The name that `text` stands for.
    pub fn from_ascii(text: &str) -> (r: Result<Name, Error>)
        ensures
            name_in(r) == ascii_name(text@),
            reads_dotted(text@, name_in(r)),
            reads_ending(text@, name_in(r)),
            r matches Err(e) ==> e is MdnsProtoError,
    {
        match read_ascii(text) {
            Ok(name) => Ok(name),
            Err(e) => Err(Error::MdnsProtoError(e)),
        }
    }

    /// The name as text.
    pub fn to_ascii(&self) -> (r: String)
        ensures
            r@ == ascii_text(self@),
            safe_name(self@) ==> r@ == dotted(self@),
    {
        write_ascii(self)
    }
}

proof fn lemma_encoded_prefix(labels: Seq<Seq<u8>>, to: int)
    requires
        0 <= to <= labels.len(),
    ensures
        encoded_len(labels.take(to)) <= encoded_len(labels),
    decreases labels.len() - to,
{
    if to < labels.len() {
        lemma_encoded_prefix(labels, to + 1);
        assert(labels.take(to + 1).drop_last() =~= labels.take(to));
    } else {
        assert(labels.take(to) =~= labels);
    }
}

impl AssocKey for Name {
    type Id = NameView;

    open spec fn id(&self) -> NameView {
        folded(self@)
    }

    fn same(&self, other: &Name) -> (r: bool) {
        self.same_name(other)
    }

    fn duplicate(&self) -> (r: Name) {
        self.copy()
    }
}

impl PartialEq for Name {
    fn eq(&self, other: &Name) -> (r: bool) {
        self.same_name(other)
    }
}

impl vstd::std_specs::cmp::PartialEqSpecImpl for Name {
    open spec fn obeys_eq_spec() -> bool {
        true
    }

    open spec fn eq_spec(&self, other: &Name) -> bool {
        folded(self@) == folded(other@)
    }
}

impl Clone for Name {
    fn clone(&self) -> (r: Name)
        ensures
            r@ == self@,
    {
        self.copy()
    }
}

/// The bytes are the same, or are the same ASCII letter in upper and in lower case.
pub open spec fn same_letter(x: u8, y: u8) -> bool {
    ||| x == y
    ||| 65 <= x <= 90 && y == x + 32
    ||| 65 <= y <= 90 && x == y + 32
}

/// Two names are equal exactly if both are fully qualified or neither is, and they have as many
/// labels, of the same lengths, with the same bytes but for the case of ASCII letters.
pub proof fn law_equal_names(a: NameView, b: NameView)
    ensures
        folded(a) == folded(b) <==> {
            &&& a.fqdn == b.fqdn
            &&& a.labels.len() == b.labels.len()
            &&& forall|i: int|
                0 <= i < a.labels.len() ==> (#[trigger] a.labels[i]).len() == b.labels[i].len()
            &&& forall|i: int, j: int|
                0 <= i < a.labels.len() && 0 <= j < a.labels[i].len() ==> same_letter(
                    #[trigger] a.labels[i][j],
                    b.labels[i][j],
                )
        },
{
    let fa = folded(a);
    let fb = folded(b);
    assert(fa.labels.len() == a.labels.len());
    assert(fb.labels.len() == b.labels.len());
    if fa == fb {
        assert forall|i: int| 0 <= i < a.labels.len() implies (#[trigger] a.labels[i]).len()
            == b.labels[i].len() by {
            assert(fa.labels[i] == lower_label(a.labels[i]));
            assert(fb.labels[i] == lower_label(b.labels[i]));
            assert(lower_label(a.labels[i]).len() == a.labels[i].len());
            assert(lower_label(b.labels[i]).len() == b.labels[i].len());
        }
        assert forall|i: int, j: int|
            0 <= i < a.labels.len() && 0 <= j < a.labels[i].len() implies same_letter(
            #[trigger] a.labels[i][j],
            b.labels[i][j],
        ) by {
            assert(a.labels[i].len() == b.labels[i].len());
            assert(fa.labels[i] == lower_label(a.labels[i]));
            assert(fb.labels[i] == lower_label(b.labels[i]));
            assert(lower_label(a.labels[i])[j] == lower(a.labels[i][j]));
            assert(lower_label(b.labels[i])[j] == lower(b.labels[i][j]));
        }
    }
    if a.fqdn == b.fqdn && a.labels.len() == b.labels.len() && (forall|i: int|
        0 <= i < a.labels.len() ==> (#[trigger] a.labels[i]).len() == b.labels[i].len()) && (
    forall|i: int, j: int|
        0 <= i < a.labels.len() && 0 <= j < a.labels[i].len() ==> same_letter(
            #[trigger] a.labels[i][j],
            b.labels[i][j],
        )) {
        assert forall|i: int| 0 <= i < a.labels.len() implies fa.labels[i] == fb.labels[i] by {
            let la = lower_label(a.labels[i]);
            let lb = lower_label(b.labels[i]);
            assert(a.labels[i].len() == b.labels[i].len());
            assert forall|j: int| 0 <= j < la.len() implies la[j] == lb[j] by {
                assert(same_letter(a.labels[i][j], b.labels[i][j]));
            }
            assert(la =~= lb);
        }
        assert(fa.labels =~= fb.labels);
    }
}

/// Trimming a name keeps its last labels, in their order, and makes it fully qualified; a name with
/// fewer labels stays as it is.
pub proof fn law_trimmed(n: NameView, count: nat, i: int)
    ensures
        n.labels.len() < count ==> trimmed(n, count) == n,
        n.labels.len() >= count ==> trimmed(n, count).fqdn && trimmed(n, count).labels.len() == count,
        n.labels.len() >= count && 0 <= i < count ==> trimmed(n, count).labels[i]
            == n.labels[n.labels.len() - count + i],
{
}

/// Of the labels of a name all count but an asterisk in front.
pub proof fn law_label_count(n: NameView)
    ensures
        label_count(n) == n.labels.len() || label_count(n) + 1 == n.labels.len(),
        label_count(n) + 1 == n.labels.len() <==> n.labels.len() > 0 && n.labels[0].len() == 1
            && n.labels[0][0] == 42,
{
    if n.labels.len() > 0 && n.labels[0].len() == 1 && n.labels[0][0] == 42 {
        assert(n.labels[0] =~= seq![42u8]);
    }
}

/// A name takes a byte for each label beside its own, and one at the end.
pub proof fn law_encoded_len(labels: Seq<Seq<u8>>, label: Seq<u8>)
    ensures
        encoded_len(Seq::empty()) == 1,
        encoded_len(labels.push(label)) == encoded_len(labels) + label.len() + 1,
        valid_labels(labels.push(label)) <==> valid_labels(labels) && 1 <= label.len() <= 63
            && encoded_len(labels) + label.len() + 1 <= 255,
{
    let more = labels.push(label);
    assert(more.drop_last() =~= labels);
    assert(more.last() == label);
    if valid_labels(more) {
        assert(valid_label(more[labels.len() as int]));
        assert forall|i: int| 0 <= i < labels.len() implies valid_label(#[trigger] labels[i]) by {
            assert(more[i] == labels[i]);
        }
    }
    if valid_labels(labels) && 1 <= label.len() <= 63 && encoded_len(labels) + label.len() + 1
        <= 255 {
        assert forall|i: int| 0 <= i < more.len() implies valid_label(#[trigger] more[i]) by {
            if i < labels.len() {
                assert(more[i] == labels[i]);
            }
        }
    }
}

/// A name as text has a dot between each two labels, and one behind exactly if it is fully qualified.
pub proof fn law_dotted(labels: Seq<Seq<u8>>, label: Seq<u8>)
    ensures
        dotted(NameView { labels, fqdn: true }) == dotted(NameView { labels, fqdn: false })
            + seq!['.'],
        dotted(NameView { labels: Seq::empty(), fqdn: false }) == Seq::<char>::empty(),
        dotted(NameView { labels: seq![label], fqdn: false }) == text_of(label),
        labels.len() > 0 ==> dotted(NameView { labels: labels.push(label), fqdn: false }) == dotted(
            NameView { labels, fqdn: false },
        ) + seq!['.'] + text_of(label),
{
    assert(labels.push(label).drop_last() =~= labels);
}

/// A result shows the name that it holds, and labels show their bytes, in order.
pub proof fn law_name_in<E>(r: Result<Name, E>, labels: Seq<Vec<u8>>, i: int)
    ensures
        r matches Ok(n) ==> name_in(r) == Some(n@),
        r is Err ==> name_in(r) is None,
        bytes_of(labels).len() == labels.len(),
        0 <= i < labels.len() ==> bytes_of(labels)[i] == labels[i]@,
{
}

} // verus!
