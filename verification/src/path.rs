//! Directory paths as text.
//!
//! A path is read as a sequence of components: an empty component for a
//! leading separator (the root), then every non-empty run of characters
//! between separators. Configured directories and the working directory are
//! canonical, so `.` and `..` are not given a meaning of their own.

use vstd::prelude::*;
use vstd::string::{StrSliceExecFns, StringExecFns};
use crate::text::{chars_of, same_chars, text_le, text_of};

verus! {

/// The separator between the segments of a path.
pub open spec fn is_separator(c: char) -> bool {
    c == '/'
}

/// The non-empty runs of characters between separators, in order.
pub open spec fn segments(text: Seq<char>) -> Seq<Seq<char>>
    decreases text.len(),
{
    if text.len() == 0 {
        Seq::empty()
    } else {
        let init = text.drop_last();
        let c = text.last();
        if is_separator(c) {
            segments(init)
        } else if init.len() > 0 && !is_separator(init.last()) {
            segments(init).drop_last().push(segments(init).last().push(c))
        } else {
            segments(init).push(seq![c])
        }
    }
}

/// Whether the path starts at the root.
pub open spec fn rooted(text: Seq<char>) -> bool {
    text.len() > 0 && is_separator(text[0])
}

/// The components of a path: the root, if it starts there, as an empty
/// component, then its segments.
pub open spec fn components(text: Seq<char>) -> Seq<Seq<char>> {
    if rooted(text) {
        seq![Seq::<char>::empty()] + segments(text)
    } else {
        segments(text)
    }
}

/// Whether `base` is `path` or one of the directories above it: component
/// by component, not character by character.
pub open spec fn is_ancestor(base: Seq<char>, path: Seq<char>) -> bool {
    components(base).is_prefix_of(components(path))
}

/// A text that ends inside a segment has at least that segment.
pub proof fn lemma_open_segment(text: Seq<char>)
    requires
        text.len() > 0,
        !is_separator(text.last()),
    ensures
        segments(text).len() > 0,
        segments(text).last().len() > 0,
    decreases text.len(),
{
    let init = text.drop_last();
    if init.len() > 0 && !is_separator(init.last()) {
        lemma_open_segment(init);
    }
}

/// The views of a vector of character vectors.
pub open spec fn parts_view(parts: Seq<Vec<char>>) -> Seq<Seq<char>> {
    Seq::new(parts.len(), |i: int| parts[i]@)
}

/// Splits a path into its components.
pub fn components_of(text: &str) -> (parts: Vec<Vec<char>>)
    ensures
        parts_view(parts@) == components(text@),
{
    let chars = chars_of(text);
    let mut parts: Vec<Vec<char>> = Vec::new();
    let mut current: Vec<char> = Vec::new();
    let mut i: usize = 0;
    if chars.len() > 0 && chars[0] == '/' {
        parts.push(Vec::new());
    }
    let ghost lead: Seq<Seq<char>> = if rooted(text@) {
        seq![Seq::<char>::empty()]
    } else {
        Seq::empty()
    };
    assert(parts_view(parts@) =~= lead);
    while i < chars.len()
        invariant
            i <= chars.len(),
            chars@ == text@,
            lead == if rooted(text@) { seq![Seq::<char>::empty()] } else { Seq::<Seq<char>>::empty() },
            current@.len() > 0 <==> (i > 0 && !is_separator(chars[i - 1])),
            current@.len() > 0 ==> lead + segments(text@.take(i as int)) == parts_view(parts@).push(current@),
            current@.len() == 0 ==> lead + segments(text@.take(i as int)) == parts_view(parts@),
        decreases chars.len() - i,
    {
        let c = chars[i];
        let ghost before = text@.take(i as int);
        let ghost now = text@.take(i + 1);
        assert(now.drop_last() =~= before);
        assert(now.last() == c);
        assert(i > 0 ==> before.last() == chars[i - 1]);
        if c == '/' {
            if current.len() > 0 {
                let ghost shown = parts_view(parts@).push(current@);
                parts.push(current);
                current = Vec::new();
                assert(parts_view(parts@) =~= shown);
            }
        } else {
            let ghost open = current@;
            let was_open = current.len() > 0;
            current.push(c);
            if was_open {
                proof {
                    lemma_open_segment(before);
                    let s = segments(before);
                    let all = lead + s;
                    assert(all == parts_view(parts@).push(open));
                    assert(all.last() == open);
                    assert(s.last() == open);
                    assert(lead + s.drop_last().push(s.last().push(c)) =~= parts_view(parts@).push(
                        current@,
                    )) by {
                        assert(s.drop_last() =~= all.drop_last().subrange(lead.len() as int, all.len() - 1));
                        assert(all.drop_last() =~= parts_view(parts@));
                    }
                }
            } else {
                assert(current@ =~= seq![c]);
                assert(lead + segments(before).push(seq![c]) =~= parts_view(parts@).push(current@));
            }
        }
        i += 1;
    }
    assert(text@.take(chars.len() as int) =~= text@);
    if current.len() > 0 {
        let ghost shown = parts_view(parts@).push(current@);
        parts.push(current);
        assert(parts_view(parts@) =~= shown);
    }
    parts
}

/// Whether the components `a` are the first components of `b`.
pub fn is_prefix(a: &Vec<Vec<char>>, b: &Vec<Vec<char>>) -> (yes: bool)
    ensures
        yes == parts_view(a@).is_prefix_of(parts_view(b@)),
{
    if a.len() > b.len() {
        return false;
    }
    let mut i: usize = 0;
    while i < a.len()
        invariant
            i <= a.len() <= b.len(),
            forall|j: int| 0 <= j < i ==> a[j]@ == b[j]@,
        decreases a.len() - i,
    {
        if !same_chars(&a[i], &b[i]) {
            assert(parts_view(a@)[i as int] != parts_view(b@).subrange(0, a.len() as int)[i as int]);
            return false;
        }
        i += 1;
    }
    assert(parts_view(a@) =~= parts_view(b@).subrange(0, a.len() as int));
    true
}

/// Whether `path` is `base` or lies below it.
pub fn starts_with(path: &str, base: &str) -> (yes: bool)
    ensures
        yes == is_ancestor(base@, path@),
{
    let b = components_of(base);
    let p = components_of(path);
    is_prefix(&b, &p)
}

/// The order of component sequences: component by component, each pair of
/// components in the order of texts, a sequence before its extensions.
pub open spec fn components_le(a: Seq<Seq<char>>, b: Seq<Seq<char>>) -> bool
    decreases a.len(),
{
    if a.len() == 0 {
        true
    } else if b.len() == 0 {
        false
    } else if a[0] != b[0] {
        text_le(a[0], b[0])
    } else {
        components_le(a.drop_first(), b.drop_first())
    }
}

/// The order in which paths are sorted.
pub open spec fn path_le(a: Seq<char>, b: Seq<char>) -> bool {
    components_le(components(a), components(b))
}

/// A sequence of components comes before each of its extensions.
pub proof fn lemma_prefix_first(a: Seq<Seq<char>>, b: Seq<Seq<char>>)
    requires
        a.is_prefix_of(b),
    ensures
        components_le(a, b),
    decreases a.len(),
{
    if a.len() > 0 {
        assert(a[0] == b.subrange(0, a.len() as int)[0]);
        assert(a.drop_first() =~= b.drop_first().subrange(0, a.len() - 1));
        lemma_prefix_first(a.drop_first(), b.drop_first());
    }
}

/// A proper extension does not come before what it extends.
pub proof fn lemma_extension_later(a: Seq<Seq<char>>, b: Seq<Seq<char>>)
    requires
        a.is_prefix_of(b),
        a.len() < b.len(),
    ensures
        !components_le(b, a),
    decreases a.len(),
{
    if a.len() > 0 {
        assert(a[0] == b.subrange(0, a.len() as int)[0]);
        assert(a.drop_first() =~= b.drop_first().subrange(0, a.len() - 1));
        lemma_extension_later(a.drop_first(), b.drop_first());
    }
}

/// Of two directories above the same path, the one with fewer components
/// is above the other.
pub proof fn lemma_ancestors_chain(a: Seq<char>, b: Seq<char>, path: Seq<char>)
    requires
        is_ancestor(a, path),
        is_ancestor(b, path),
        components(a).len() <= components(b).len(),
    ensures
        is_ancestor(a, b),
{
    let ca = components(a);
    let cb = components(b);
    let cp = components(path);
    assert(ca =~= cb.subrange(0, ca.len() as int)) by {
        assert forall|i: int| 0 <= i < ca.len() implies ca[i] == cb[i] by {
            assert(ca[i] == cp.subrange(0, ca.len() as int)[i]);
            assert(cb[i] == cp.subrange(0, cb.len() as int)[i]);
        }
    }
}

/// Among the directories above one path, the sorting order is the order of
/// depth: the outermost directory comes first.
pub proof fn lemma_order_among_ancestors(a: Seq<char>, b: Seq<char>, path: Seq<char>)
    requires
        is_ancestor(a, path),
        is_ancestor(b, path),
    ensures
        path_le(a, b) <==> components(a).len() <= components(b).len(),
{
    if components(a).len() <= components(b).len() {
        lemma_ancestors_chain(a, b, path);
        lemma_prefix_first(components(a), components(b));
    } else {
        lemma_ancestors_chain(b, a, path);
        lemma_extension_later(components(b), components(a));
    }
}

/// The path of `name` inside the directory `dir`.
pub open spec fn child(dir: Seq<char>, name: Seq<char>) -> Seq<char> {
    if dir.len() == 0 || is_separator(dir.last()) {
        dir + name
    } else {
        dir + "/"@ + name
    }
}

/// The path of `name` inside the directory `dir`; `name` is a file name,
/// not a path of its own.
pub fn child_of(dir: &str, name: &str) -> (path: String)
    ensures
        path@ == child(dir@, name@),
{
    let chars = chars_of(dir);
    let mut path = String::from_str(dir);
    if chars.len() > 0 && chars[chars.len() - 1] != '/' {
        path.append("/");
    }
    path.append(name);
    path
}

/// The text without the separators at its end; a separator that is all of
/// the text, the root, stays.
pub open spec fn trimmed(text: Seq<char>) -> Seq<char>
    decreases text.len(),
{
    if text.len() > 1 && is_separator(text.last()) {
        trimmed(text.drop_last())
    } else {
        text
    }
}

/// The text without the characters of the segment at its end.
pub open spec fn cut(text: Seq<char>) -> Seq<char>
    decreases text.len(),
{
    if text.len() > 0 && !is_separator(text.last()) {
        cut(text.drop_last())
    } else {
        text
    }
}

/// The directory that holds `text`: the path without its last segment.
/// The root and the empty path have none.
pub open spec fn parent(text: Seq<char>) -> Option<Seq<char>> {
    let path = trimmed(text);
    if path.len() == 0 || is_separator(path.last()) {
        None
    } else {
        Some(trimmed(cut(path)))
    }
}

/// Trimming and cutting leave a beginning of the text.
pub proof fn lemma_trimmed_shorter(text: Seq<char>)
    ensures
        trimmed(text).len() <= text.len(),
        cut(text).len() <= text.len(),
    decreases text.len(),
{
    if text.len() > 0 {
        lemma_trimmed_shorter(text.drop_last());
    }
}

/// The directory that holds a path has a shorter text than the path.
pub proof fn lemma_parent_shorter(text: Seq<char>)
    requires
        parent(text) is Some,
    ensures
        parent(text)->0.len() < text.len(),
{
    let path = trimmed(text);
    lemma_trimmed_shorter(text);
    lemma_trimmed_shorter(path.drop_last());
    lemma_trimmed_shorter(cut(path));
}

/// The directory that holds `text`, if it has one.
pub fn parent_of(text: &str) -> (dir: Option<String>)
    ensures
        text_of(dir) == parent(text@),
{
    let chars = chars_of(text);
    let mut end: usize = chars.len();
    assert(text@.take(end as int) =~= text@);
    while end > 1 && chars[end - 1] == '/'
        invariant
            end <= chars.len(),
            chars@ == text@,
            trimmed(text@) == trimmed(text@.take(end as int)),
        decreases end,
    {
        assert(text@.take(end as int).drop_last() =~= text@.take(end - 1));
        end -= 1;
    }
    let ghost path = text@.take(end as int);
    assert(trimmed(text@) == path);
    if end == 0 || chars[end - 1] == '/' {
        return None;
    }
    let mut start: usize = end;
    while start > 0 && chars[start - 1] != '/'
        invariant
            start <= end <= chars.len(),
            chars@ == text@,
            cut(path) == cut(text@.take(start as int)),
        decreases start,
    {
        assert(text@.take(start as int).drop_last() =~= text@.take(start - 1));
        start -= 1;
    }
    assert(cut(path) == text@.take(start as int));
    let mut stop: usize = start;
    while stop > 1 && chars[stop - 1] == '/'
        invariant
            stop <= start <= chars.len(),
            chars@ == text@,
            trimmed(cut(path)) == trimmed(text@.take(stop as int)),
        decreases stop,
    {
        assert(text@.take(stop as int).drop_last() =~= text@.take(stop - 1));
        stop -= 1;
    }
    assert(trimmed(cut(path)) == text@.take(stop as int));
    Some(String::from_str(text.substring_char(0, stop)))
}

/// Trimming changes no component.
pub proof fn lemma_trimmed_components(text: Seq<char>)
    ensures
        segments(trimmed(text)) == segments(text),
        rooted(trimmed(text)) == rooted(text),
        components(trimmed(text)) == components(text),
    decreases text.len(),
{
    if text.len() > 1 && is_separator(text.last()) {
        lemma_trimmed_components(text.drop_last());
    }
}

/// Cutting takes the last segment away and nothing else.
pub proof fn lemma_cut_components(text: Seq<char>)
    requires
        text.len() > 0,
        !is_separator(text.last()),
    ensures
        segments(cut(text)) == segments(text).drop_last(),
        rooted(cut(text)) == rooted(text),
    decreases text.len(),
{
    let init = text.drop_last();
    assert(cut(text) == cut(init));
    if init.len() > 0 {
        assert(init[0] == text[0]);
    }
    if init.len() > 0 && !is_separator(init.last()) {
        lemma_cut_components(init);
        lemma_open_segment(init);
        assert(segments(text).drop_last() =~= segments(init).drop_last());
    } else {
        assert(cut(init) == init);
        assert(segments(text).drop_last() =~= segments(init));
    }
}

/// The directory that holds a path has the components of the path but for
/// the last: it is the nearest of the directories above it.
pub proof fn lemma_parent_components(text: Seq<char>)
    requires
        parent(text) is Some,
    ensures
        components(text).len() > 0,
        components(parent(text)->0) == components(text).drop_last(),
        is_ancestor(parent(text)->0, text),
{
    let path = trimmed(text);
    lemma_trimmed_components(text);
    lemma_open_segment(path);
    lemma_cut_components(path);
    lemma_trimmed_components(cut(path));
    assert(components(parent(text)->0) =~= components(text).drop_last());
    assert(components(text).drop_last() =~= components(text).subrange(
        0,
        components(text).len() - 1,
    ));
}

} // verus!
