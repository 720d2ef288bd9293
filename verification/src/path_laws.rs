//! Laws of the path grammar: what reading and writing a path preserve.

use vstd::prelude::*;
use crate::path::is_part;
use crate::path::join_parts;
use crate::path::lemma_split_nonempty;
use crate::path::model_of;
use crate::path::part_filter;
use crate::path::split;
use crate::path::PathModel;

verus! {

/// A part as it can come out of reading a path: not empty, not `.`, and
/// without a `/` in it.
pub open spec fn is_clean_part(part: Seq<char>) -> bool {
    is_part(part) && !part.contains('/')
}

/// Whether every part is clean.
pub open spec fn all_clean(parts: Seq<Seq<char>>) -> bool {
    forall|i: int| 0 <= i < parts.len() ==> is_clean_part(#[trigger] parts[i])
}

/// No segment of a text holds a `/`.
pub proof fn lemma_segments_hold_no_separator(s: Seq<char>)
    ensures
        forall|i: int| 0 <= i < split(s).len() ==> !(#[trigger] split(s)[i]).contains('/'),
    decreases s.len(),
{
    if s.len() > 0 {
        lemma_segments_hold_no_separator(s.drop_last());
        lemma_split_nonempty(s.drop_last());
        let before = split(s.drop_last());
        if s.last() != '/' {
            let grown = before.last().push(s.last());
            assert(!grown.contains('/')) by {
                if grown.contains('/') {
                    let j = choose|j: int| 0 <= j < grown.len() && grown[j] == '/';
                    assert(before.last()[j] == '/');
                    assert(before[before.len() - 1].contains('/'));
                }
            }
            assert forall|i: int| 0 <= i < split(s).len() implies !(#[trigger] split(s)[i]).contains(
                '/',
            ) by {
                if i < before.len() - 1 {
                    assert(split(s)[i] == before[i]);
                }
            }
        } else {
            assert forall|i: int| 0 <= i < split(s).len() implies !(#[trigger] split(s)[i]).contains(
                '/',
            ) by {
                if i < before.len() {
                    assert(split(s)[i] == before[i]);
                } else {
                    assert(split(s)[i] =~= Seq::<char>::empty());
                }
            }
        }
    }
}

/// Every part of a path read from text is clean.
pub proof fn lemma_read_parts_are_clean(s: Seq<char>)
    ensures
        all_clean(model_of(s).parts),
{
    let segments = split(s);
    let parts = segments.filter(part_filter());
    lemma_segments_hold_no_separator(s);
    assert forall|i: int| 0 <= i < parts.len() implies is_clean_part(#[trigger] parts[i]) by {
        segments.lemma_filter_pred(part_filter(), i);
        assert(parts.contains(parts[i]));
        segments.lemma_filter_contains_rev(part_filter(), parts[i]);
        let j = choose|j: int| 0 <= j < segments.len() && segments[j] == parts[i];
        assert(!segments[j].contains('/'));
    }
}

/// A text without `/` is a single segment.
pub proof fn lemma_split_of_one_segment(part: Seq<char>)
    requires
        !part.contains('/'),
    ensures
        split(part) == seq![part],
    decreases part.len(),
{
    if part.len() == 0 {
        assert(part =~= Seq::<char>::empty());
    } else {
        let front = part.drop_last();
        assert(!front.contains('/')) by {
            if front.contains('/') {
                let j = choose|j: int| 0 <= j < front.len() && front[j] == '/';
                assert(part[j] == '/');
            }
        }
        assert(part.last() != '/') by {
            assert(part[part.len() - 1] == part.last());
        }
        lemma_split_of_one_segment(front);
        assert(front.push(part.last()) =~= part);
        assert(seq![front].last() == front);
        assert(seq![front].drop_last() =~= Seq::<Seq<char>>::empty());
        assert(Seq::<Seq<char>>::empty().push(part) =~= seq![part]);
    }
}

/// A text followed by `/` and a text without `/` has the segments of the
/// first text and then the second text as its last segment.
pub proof fn lemma_split_of_appended_segment(s: Seq<char>, part: Seq<char>)
    requires
        !part.contains('/'),
    ensures
        split(s.push('/') + part) == split(s).push(part),
    decreases part.len(),
{
    if part.len() == 0 {
        assert(s.push('/') + part =~= s.push('/'));
        assert(s.push('/').drop_last() =~= s);
        assert(part =~= Seq::<char>::empty());
    } else {
        let front = part.drop_last();
        assert(!front.contains('/')) by {
            if front.contains('/') {
                let j = choose|j: int| 0 <= j < front.len() && front[j] == '/';
                assert(part[j] == '/');
            }
        }
        assert(part.last() != '/') by {
            assert(part[part.len() - 1] == part.last());
        }
        lemma_split_of_appended_segment(s, front);
        let whole = s.push('/') + part;
        assert(whole.drop_last() =~= s.push('/') + front);
        assert(whole.last() == part.last());
        assert(split(s).push(front).drop_last() =~= split(s));
        assert(front.push(part.last()) =~= part);
    }
}

/// Clean parts written with `/` between them read back as the same parts.
pub proof fn lemma_split_of_join(parts: Seq<Seq<char>>)
    requires
        all_clean(parts),
        parts.len() > 0,
    ensures
        split(join_parts(parts)) == parts,
    decreases parts.len(),
{
    if parts.len() == 1 {
        assert(is_clean_part(parts[0]));
        lemma_split_of_one_segment(parts[0]);
        assert(parts =~= seq![parts[0]]);
    } else {
        let front = parts.drop_last();
        assert forall|i: int| 0 <= i < front.len() implies is_clean_part(#[trigger] front[i]) by {
            assert(front[i] == parts[i]);
        }
        assert(is_clean_part(parts[parts.len() - 1]));
        lemma_split_of_join(front);
        lemma_split_of_appended_segment(join_parts(front), parts.last());
        assert(front.push(parts.last()) =~= parts);
    }
}

/// A `/` in front of a text adds an empty first segment.
pub proof fn lemma_split_of_rooted(s: Seq<char>)
    ensures
        split(seq!['/'] + s) == seq![Seq::<char>::empty()] + split(s),
    decreases s.len(),
{
    let whole = seq!['/'] + s;
    if s.len() == 0 {
        assert(whole =~= seq!['/']);
        assert(whole.drop_last() =~= s);
        assert(split(s) =~= seq![Seq::<char>::empty()]);
        assert(split(whole) == split(s).push(Seq::<char>::empty()));
        assert(split(whole) =~= seq![Seq::<char>::empty()] + split(s));
    } else {
        lemma_split_of_rooted(s.drop_last());
        lemma_split_nonempty(s.drop_last());
        assert(whole.drop_last() =~= seq!['/'] + s.drop_last());
        assert(whole.last() == s.last());
        let before = split(s.drop_last());
        let lead = seq![Seq::<char>::empty()];
        if s.last() == '/' {
            assert((lead + before).push(Seq::<char>::empty()) =~= lead + before.push(
                Seq::<char>::empty(),
            ));
        } else {
            assert((lead + before).drop_last() =~= lead + before.drop_last());
            assert((lead + before).last() == before.last());
            assert((lead + before.drop_last()).push(before.last().push(s.last())) =~= lead
                + before.drop_last().push(before.last().push(s.last())));
        }
    }
}

/// Filtering clean parts keeps them all.
pub proof fn lemma_clean_parts_pass_the_filter(parts: Seq<Seq<char>>)
    requires
        all_clean(parts),
    ensures
        parts.filter(part_filter()) == parts,
    decreases parts.len(),
{
    reveal(Seq::filter);
    if parts.len() > 0 {
        let front = parts.drop_last();
        assert forall|i: int| 0 <= i < front.len() implies is_clean_part(#[trigger] front[i]) by {
            assert(front[i] == parts[i]);
        }
        assert(is_clean_part(parts[parts.len() - 1]));
        lemma_clean_parts_pass_the_filter(front);
        assert(front.push(parts.last()) =~= parts);
    }
}

/// A lone empty segment holds no part.
pub proof fn lemma_lone_empty_segment_holds_no_part()
    ensures
        seq![Seq::<char>::empty()].filter(part_filter()) == Seq::<Seq<char>>::empty(),
{
    reveal(Seq::filter);
    let none = Seq::<Seq<char>>::empty();
    none.lemma_filter_push(Seq::<char>::empty(), part_filter());
    assert(none.push(Seq::<char>::empty()) =~= seq![Seq::<char>::empty()]);
    assert(none.filter(part_filter()) =~= none);
}

/// Writing a path and reading it again gives the same path, where its parts
/// are clean.
pub proof fn lemma_render_then_read(path: PathModel)
    requires
        all_clean(path.parts),
    ensures
        model_of(path.render()) == path,
{
    let joined = join_parts(path.parts);
    let empty = Seq::<char>::empty();
    if path.parts.len() > 0 {
        lemma_split_of_join(path.parts);
        lemma_clean_parts_pass_the_filter(path.parts);
        assert(is_clean_part(path.parts[0]));
        lemma_join_starts_with_first_part(path.parts);
    } else {
        assert(joined =~= empty);
        assert(split(joined) =~= seq![empty]);
        lemma_lone_empty_segment_holds_no_part();
        assert(split(joined).filter(part_filter()) =~= path.parts);
    }
    if path.rooted {
        lemma_split_of_rooted(joined);
        Seq::filter_distributes_over_add(seq![empty], split(joined), part_filter());
        lemma_lone_empty_segment_holds_no_part();
        assert(model_of(path.render()).parts =~= path.parts);
        assert(path.render()[0] == '/');
    } else {
        assert(model_of(path.render()).parts =~= path.parts);
        if path.parts.len() > 0 {
            assert(joined[0] == path.parts[0][0]);
            assert(path.parts[0].contains(path.parts[0][0]));
        }
    }
}

/// Clean parts written with `/` between them begin with the first part.
pub proof fn lemma_join_starts_with_first_part(parts: Seq<Seq<char>>)
    requires
        parts.len() > 0,
        parts[0].len() > 0,
    ensures
        join_parts(parts).len() > 0,
        join_parts(parts)[0] == parts[0][0],
    decreases parts.len(),
{
    if parts.len() > 1 {
        lemma_join_starts_with_first_part(parts.drop_last());
    }
}

/// Reading a path, writing it and reading it again changes nothing: the
/// written form of a path is its normal form.
pub proof fn lemma_normal_form_is_stable(s: Seq<char>)
    ensures
        model_of(model_of(s).render()) == model_of(s),
{
    lemma_read_parts_are_clean(s);
    lemma_render_then_read(model_of(s));
}

/// A path placed under a base and then taken relative to that base is the
/// path itself, where the path is not rooted.
pub proof fn lemma_join_then_strip(base: PathModel, relative: PathModel)
    requires
        !relative.rooted,
    ensures
        base.join(relative).strip_prefix(base) == Some(relative),
{
    let joined = base.join(relative);
    assert(joined.parts.take(base.parts.len() as int) =~= base.parts);
    assert(joined.parts.skip(base.parts.len() as int) =~= relative.parts);
}

/// A path taken relative to a base and placed under the base again is the
/// path itself.
pub proof fn lemma_strip_then_join(path: PathModel, base: PathModel)
    requires
        path.starts_with(base),
    ensures
        base.join(path.strip_prefix(base).unwrap()) == path,
{
    let rest = path.strip_prefix(base).unwrap();
    assert(base.parts + rest.parts =~= path.parts);
}

} // verus!
