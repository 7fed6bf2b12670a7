//! OSC address paths and their segments.
use vstd::prelude::*;

use crate::text;

verus! {

/// Length of the longest prefix of `path` without a slash.
pub open spec fn segment_len(path: Seq<char>) -> nat
    decreases path.len(),
{
    if path.len() == 0 || path[0] == '/' {
        0
    } else {
        1 + segment_len(path.skip(1))
    }
}

/// The non-empty pieces of `path` between its slashes, in order.
pub open spec fn segments(path: Seq<char>) -> Seq<Seq<char>>
    decreases path.len(),
{
    if path.len() == 0 {
        Seq::empty()
    } else if path[0] == '/' {
        segments(path.skip(1))
    } else {
        proof {
            lemma_segment_bounds(path);
        }
        seq![path.take(segment_len(path) as int)] + segments(path.skip(segment_len(path) as int))
    }
}

/// The texts of `strings`, in order.
pub open spec fn texts(strings: Seq<String>) -> Seq<Seq<char>> {
    strings.map_values(|s: String| s@)
}

/// The path of the child `name` of the node at `parent`.
pub open spec fn child_path(parent: Seq<char>, name: Seq<char>) -> Seq<char> {
    if parent == seq!['/'] {
        parent + name
    } else {
        parent + seq!['/'] + name
    }
}

/// The path of the node that `segs` leads to from the node at `parent`.
pub open spec fn path_from(parent: Seq<char>, segs: Seq<Seq<char>>) -> Seq<char>
    decreases segs.len(),
{
    if segs.len() == 0 {
        parent
    } else {
        path_from(child_path(parent, segs[0]), segs.skip(1))
    }
}

proof fn lemma_segment_len(path: Seq<char>, n: int)
    requires
        0 <= n <= path.len(),
        forall|k: int| 0 <= k < n ==> #[trigger] path[k] != '/',
        n == path.len() || path[n] == '/',
    ensures
        segment_len(path) == n,
    decreases n,
{
    if n > 0 {
        assert(path[0] != '/');
        assert forall|k: int| 0 <= k < n - 1 implies #[trigger] path.skip(1)[k] != '/' by {
            assert(path.skip(1)[k] == path[k + 1]);
        }
        lemma_segment_len(path.skip(1), n - 1);
    }
}

/// `segment_len` is at most the length, and no slash stands before it.
pub proof fn lemma_segment_bounds(path: Seq<char>)
    ensures
        segment_len(path) <= path.len(),
        forall|k: int| 0 <= k < segment_len(path) ==> #[trigger] path[k] != '/',
        path.len() > 0 && path[0] != '/' ==> segment_len(path) > 0,
        segment_len(path) < path.len() ==> path[segment_len(path) as int] == '/',
    decreases path.len(),
{
    if path.len() > 0 && path[0] != '/' {
        lemma_segment_bounds(path.skip(1));
        assert forall|k: int| 0 <= k < segment_len(path) implies #[trigger] path[k] != '/' by {
            if k > 0 {
                assert(path[k] == path.skip(1)[k - 1]);
            }
        }
    }
}

/// No segment is empty, and none holds a slash.
pub proof fn law_segments_are_names(path: Seq<char>)
    ensures
        forall|i: int|
            0 <= i < segments(path).len() ==> (#[trigger] segments(path)[i]).len() > 0
                && !segments(path)[i].contains('/'),
    decreases path.len(),
{
    if path.len() > 0 {
        lemma_segment_bounds(path);
        if path[0] == '/' {
            law_segments_are_names(path.skip(1));
            assert(segments(path) == segments(path.skip(1)));
        } else {
            let n = segment_len(path) as int;
            law_segments_are_names(path.skip(n));
            assert forall|i: int| 0 <= i < segments(path).len() implies (#[trigger] segments(
                path,
            )[i]).len() > 0 && !segments(path)[i].contains('/') by {
                if i > 0 {
                    assert(segments(path)[i] == segments(path.skip(n))[i - 1]);
                } else {
                    let first = path.take(n);
                    assert(segments(path)[0] == first);
                    assert forall|k: int| 0 <= k < first.len() implies #[trigger] first[k]
                        != '/' by {
                        assert(first[k] == path[k]);
                    }
                    assert(!first.contains('/'));
                }
            }
        }
    }
}

/// The segments of `path`.
pub fn split(path: &str) -> (r: Vec<String>)
    ensures
        texts(r@) == segments(path@),
{
    let chars = text::chars_of(path);
    let mut r: Vec<String> = Vec::new();
    let mut i: usize = 0;
    assert(chars@.skip(0) =~= chars@);
    assert(texts(r@) =~= Seq::<Seq<char>>::empty());
    while i < chars.len()
        invariant
            chars@ == path@,
            i <= chars@.len(),
            texts(r@) + segments(chars@.skip(i as int)) == segments(path@),
        decreases chars@.len() - i,
    {
        let ghost rest = chars@.skip(i as int);
        if chars[i] == '/' {
            assert(rest.skip(1) =~= chars@.skip(i + 1));
            i += 1;
        } else {
            let mut end: usize = i + 1;
            while end < chars.len() && chars[end] != '/'
                invariant
                    i < end <= chars@.len(),
                    rest == chars@.skip(i as int),
                    forall|k: int| 0 <= k < end - i ==> #[trigger] rest[k] != '/',
                decreases chars@.len() - end,
            {
                end += 1;
            }
            proof {
                lemma_segment_len(rest, end - i);
                assert(rest.take(end - i) =~= chars@.subrange(i as int, end as int));
                assert(rest.skip(end - i) =~= chars@.skip(end as int));
            }
            let ghost before = r@;
            let part = text::string_of(&chars, i, end);
            r.push(part);
            proof {
                assert(texts(r@) =~= texts(before).push(part@));
                assert(texts(r@) + segments(chars@.skip(end as int)) =~= texts(before) + segments(
                    rest,
                ));
            }
            i = end;
        }
    }
    assert(segments(chars@.skip(i as int)) =~= Seq::<Seq<char>>::empty());
    assert(texts(r@) =~= segments(path@));
    r
}

/// The path of the child `name` of the node at `parent`.
pub fn join(parent: &String, name: &String) -> (r: String)
    ensures
        r@ == child_path(parent@, name@),
{
    let mut r = parent.clone();
    proof {
        reveal_strlit("/");
        assert("/"@ =~= seq!['/']);
    }
    if !text::same_text(parent.as_str(), "/") {
        r.push('/');
    }
    r.append(name.as_str());
    r
}

/// The segments of two texts with a slash between them are those of the first, and then those of the
/// second.
pub proof fn law_slash_separates(a: Seq<char>, b: Seq<char>)
    ensures
        segments(a + seq!['/'] + b) == segments(a) + segments(b),
    decreases a.len(),
{
    let whole = a + seq!['/'] + b;
    if a.len() == 0 {
        assert(whole[0] == '/');
        assert(whole.skip(1) =~= b);
        assert(segments(a) + segments(b) =~= segments(b));
    } else if a[0] == '/' {
        assert(whole[0] == '/');
        assert(whole.skip(1) =~= a.skip(1) + seq!['/'] + b);
        law_slash_separates(a.skip(1), b);
    } else {
        lemma_segment_bounds(a);
        let n = segment_len(a) as int;
        assert(whole[0] == a[0]);
        assert forall|k: int| 0 <= k < n implies #[trigger] whole[k] != '/' by {
            assert(whole[k] == a[k]);
        }
        assert(whole[n] == '/');
        lemma_segment_len(whole, n);
        assert(whole.take(n) =~= a.take(n));
        assert(whole.skip(n) =~= a.skip(n) + seq!['/'] + b);
        law_slash_separates(a.skip(n), b);
        assert(segments(whole) =~= segments(a) + segments(b));
    }
}

/// A text without slashes is one segment, unless it is empty: then there is none.
pub proof fn law_name_is_one_segment(name: Seq<char>)
    requires
        !name.contains('/'),
    ensures
        name.len() > 0 ==> segments(name) == seq![name],
        name.len() == 0 ==> segments(name) == Seq::<Seq<char>>::empty(),
{
    if name.len() > 0 {
        assert forall|k: int| 0 <= k < name.len() implies #[trigger] name[k] != '/' by {
            assert(name.contains(name[k]));
        }
        assert(name[0] != '/');
        lemma_segment_len(name, name.len() as int);
        assert(name.take(name.len() as int) =~= name);
        let rest = name.skip(name.len() as int);
        assert(rest.len() == 0);
        assert(segments(rest) =~= Seq::<Seq<char>>::empty());
        assert(segments(name) =~= seq![name]);
    }
}

/// The path of a node is that of its parent, a slash and its name; the name alone behind the slash of
/// the root.
pub proof fn law_path_of_a_node(segs: Seq<Seq<char>>, name: Seq<char>)
    ensures
        path_from(seq!['/'], Seq::empty()) == seq!['/'],
        path_from(seq!['/'], seq![name]) == seq!['/'] + name,
        segs.len() > 0 && segs[0].len() > 0 ==> path_from(seq!['/'], segs.push(name)) == path_from(
            seq!['/'],
            segs,
        ) + seq!['/'] + name,
{
    assert(seq![name].skip(1) =~= Seq::<Seq<char>>::empty());
    assert(path_from(seq!['/'], seq![name]) == path_from(
        child_path(seq!['/'], name),
        seq![name].skip(1),
    ));
    if segs.len() > 0 && segs[0].len() > 0 {
        lemma_path_push(seq!['/'], segs, name);
    }
}

proof fn lemma_path_push(parent: Seq<char>, segs: Seq<Seq<char>>, name: Seq<char>)
    requires
        parent != seq!['/'] || segs.len() > 0 && segs[0].len() > 0,
        parent.len() > 0,
    ensures
        path_from(parent, segs.push(name)) == path_from(parent, segs) + seq!['/'] + name,
    decreases segs.len(),
{
    let more = segs.push(name);
    if segs.len() == 0 {
        assert(more[0] == name);
        assert(more.skip(1) =~= Seq::<Seq<char>>::empty());
        assert(path_from(parent, more) == path_from(child_path(parent, name), more.skip(1)));
    } else {
        let next = child_path(parent, segs[0]);
        assert(more[0] == segs[0]);
        assert(more.skip(1) =~= segs.skip(1).push(name));
        assert(next.len() > 1);
        lemma_path_push(next, segs.skip(1), name);
    }
}

/// The texts of strings are those of each, in order.
pub proof fn law_texts(strings: Seq<String>, i: int)
    ensures
        texts(strings).len() == strings.len(),
        0 <= i < strings.len() ==> texts(strings)[i] == strings[i]@,
{
}

} // verus!
