//! Tag normalization.

use vstd::prelude::*;

use crate::text;

verus! {

/// A fragment of a tag list as a tag: trimmed and lowercased.
pub open spec fn as_tag(fragment: Seq<char>) -> Seq<char> {
    text::lowered(text::trimmed(fragment))
}

/// The tags of a run of fragments: empty ones dropped, and of equal ones the
/// first kept.
pub open spec fn tags_of(fragments: Seq<Seq<char>>) -> Seq<Seq<char>>
    decreases fragments.len(),
{
    if fragments.len() == 0 {
        seq![]
    } else {
        let before = tags_of(fragments.drop_last());
        let tag = as_tag(fragments.last());
        if tag.len() == 0 || before.contains(tag) {
            before
        } else {
            before.push(tag)
        }
    }
}

/// A run of tags without the empty ones, and of equal ones the first.
pub open spec fn distinct(tags: Seq<Seq<char>>) -> Seq<Seq<char>>
    decreases tags.len(),
{
    if tags.len() == 0 {
        seq![]
    } else {
        let before = distinct(tags.drop_last());
        if tags.last().len() == 0 || before.contains(tags.last()) {
            before
        } else {
            before.push(tags.last())
        }
    }
}

proof fn lemma_tags_are_distinct(fragments: Seq<Seq<char>>, tags: Seq<Seq<char>>)
    requires
        tags.len() == fragments.len(),
        forall|i: int| 0 <= i < tags.len() ==> #[trigger] tags[i] == as_tag(fragments[i]),
    ensures
        distinct(tags) == tags_of(fragments),
    decreases tags.len(),
{
    if tags.len() > 0 {
        lemma_tags_are_distinct(fragments.drop_last(), tags.drop_last());
    }
}

/// Drops the empty ones of a run of tags and, of equal ones, all but the
/// first.
pub fn distinct_tags(tags: &Vec<String>) -> (kept: Vec<String>)
    ensures
        text::texts(kept@) == distinct(text::texts(tags@)),
{
    let ghost all = text::texts(tags@);
    let mut kept: Vec<String> = Vec::new();
    assert(text::texts(kept@) =~= distinct(all.take(0)));
    for i in 0..tags.len()
        invariant
            all == text::texts(tags@),
            text::texts(kept@) == distinct(all.take(i as int)),
    {
        proof {
            assert(all.take(i + 1).drop_last() =~= all.take(i as int));
            assert(all[i as int] == tags@[i as int]@);
        }
        if !tags[i].as_str().is_empty() && !text::contains_text(&kept, &tags[i]) {
            let ghost before = kept@;
            kept.push(tags[i].clone());
            assert(text::texts(kept@) =~= text::texts(before).push(all[i as int]));
        }
    }
    assert(all.take(all.len() as int) =~= all);
    kept
}

/// Split a comma-separated tag string into normalized tags.
///
/// Trims whitespace, lowercases, drops empty fragments, and de-duplicates
/// **preserving first-seen order**.
pub fn normalize_tags(input: &str) -> (tags: Vec<String>)
    ensures
        text::texts(tags@) == tags_of(text::split_at(input@, ',')),
{
    let fragments = text::split(input, ',');
    let ghost all = text::split_at(input@, ',');
    let mut lowered: Vec<String> = Vec::new();
    for i in 0..fragments.len()
        invariant
            text::texts(fragments@) == all,
            lowered@.len() == i,
            forall|k: int| 0 <= k < i ==> #[trigger] lowered@[k]@ == as_tag(all[k]),
    {
        assert(all[i as int] == fragments@[i as int]@);
        let trimmed = text::trim(fragments[i].as_str());
        lowered.push(text::to_lowercase(trimmed.as_str()));
    }
    proof {
        assert forall|i: int| 0 <= i < all.len() implies #[trigger] text::texts(lowered@)[i]
            == as_tag(all[i]) by {
            assert(text::texts(lowered@)[i] == lowered@[i]@);
        }
        lemma_tags_are_distinct(all, text::texts(lowered@));
    }
    distinct_tags(&lowered)
}

/// **Tags are what the fragments say, each once**: a tag is there if and only
/// if some fragment is it, no tag is empty and none is there twice.
pub proof fn law_tags_are_the_distinct_fragments(fragments: Seq<Seq<char>>)
    ensures
        tags_of(fragments).no_duplicates(),
        forall|tag: Seq<char>| #[trigger]
            tags_of(fragments).contains(tag) <==> tag.len() > 0 && exists|i: int|
                0 <= i < fragments.len() && as_tag(#[trigger] fragments[i]) == tag,
    decreases fragments.len(),
{
    if fragments.len() > 0 {
        let earlier = fragments.drop_last();
        law_tags_are_the_distinct_fragments(earlier);
        let before = tags_of(earlier);
        let all = tags_of(fragments);
        let last = as_tag(fragments.last());
        assert forall|tag: Seq<char>| #[trigger] all.contains(tag) <==> tag.len() > 0 && exists|
            i: int,
        |
            0 <= i < fragments.len() && as_tag(#[trigger] fragments[i]) == tag by {
            if all.contains(tag) {
                let k = choose|k: int| 0 <= k < all.len() && all[k] == tag;
                if k < before.len() {
                    assert(before[k] == tag);
                    assert(before.contains(tag));
                    let i = choose|i: int|
                        0 <= i < earlier.len() && as_tag(#[trigger] earlier[i]) == tag;
                    assert(as_tag(fragments[i]) == tag);
                } else {
                    assert(as_tag(fragments[fragments.len() - 1]) == tag);
                }
            }
            if tag.len() > 0 && exists|i: int|
                0 <= i < fragments.len() && as_tag(#[trigger] fragments[i]) == tag {
                let i = choose|i: int|
                    0 <= i < fragments.len() && as_tag(#[trigger] fragments[i]) == tag;
                if i < earlier.len() {
                    assert(as_tag(earlier[i]) == tag);
                    assert(before.contains(tag));
                    let k = choose|k: int| 0 <= k < before.len() && before[k] == tag;
                    assert(all[k] == tag);
                } else if before.contains(tag) {
                    let k = choose|k: int| 0 <= k < before.len() && before[k] == tag;
                    assert(all[k] == tag);
                } else {
                    assert(all[before.len() as int] == tag);
                }
            }
        }
    }
}

/// **Tags keep first-seen order**: of two tags, some fragment is the earlier
/// one and none up to it is the later one.
pub proof fn law_tags_keep_first_seen_order(fragments: Seq<Seq<char>>, i: int, j: int)
    requires
        0 <= i < j < tags_of(fragments).len(),
    ensures
        exists|at: int|
            0 <= at < fragments.len() && as_tag(#[trigger] fragments[at]) == tags_of(fragments)[i]
                && forall|k: int|
                0 <= k <= at ==> as_tag(#[trigger] fragments[k]) != tags_of(fragments)[j],
    decreases fragments.len(),
{
    let earlier = fragments.drop_last();
    let before = tags_of(earlier);
    let all = tags_of(fragments);
    if j < before.len() {
        law_tags_keep_first_seen_order(earlier, i, j);
        let at = choose|at: int|
            0 <= at < earlier.len() && as_tag(#[trigger] earlier[at]) == before[i] && forall|
                k: int,
            |
                0 <= k <= at ==> as_tag(#[trigger] earlier[k]) != before[j];
        assert forall|k: int| 0 <= k <= at implies as_tag(#[trigger] fragments[k]) != all[j] by {
            assert(as_tag(earlier[k]) != before[j]);
        }
        assert(as_tag(fragments[at]) == all[i]);
    } else {
        law_tags_are_the_distinct_fragments(earlier);
        assert(before.contains(before[i]));
        let at = choose|at: int|
            0 <= at < earlier.len() && as_tag(#[trigger] earlier[at]) == before[i];
        assert forall|k: int| 0 <= k <= at implies as_tag(#[trigger] fragments[k]) != all[j] by {
            if as_tag(fragments[k]) == all[j] {
                assert(as_tag(earlier[k]) == all[j]);
                assert(before.contains(all[j]));
            }
        }
        assert(as_tag(fragments[at]) == all[i]);
    }
}

/// Whether a tag is one that normalizing leaves as it is: trimmed, without a
/// comma, and its own lowercase.
pub open spec fn settled(tag: Seq<char>) -> bool {
    &&& text::trimmed(tag) == tag
    &&& !tag.contains(',')
    &&& text::lowered(tag) == tag
}

proof fn lemma_distinct_tags_stay(fragments: Seq<Seq<char>>, tags: Seq<Seq<char>>)
    requires
        fragments.len() == tags.len(),
        tags.no_duplicates(),
        forall|i: int|
            0 <= i < tags.len() ==> (#[trigger] tags[i]).len() > 0 && as_tag(fragments[i])
                == tags[i],
    ensures
        tags_of(fragments) == tags,
    decreases tags.len(),
{
    if tags.len() > 0 {
        let before = tags.drop_last();
        assert forall|i: int| 0 <= i < before.len() implies (#[trigger] before[i]).len() > 0
            && as_tag(fragments.drop_last()[i]) == before[i] by {
            assert(before[i] == tags[i]);
        }
        lemma_distinct_tags_stay(fragments.drop_last(), before);
        let last = tags[tags.len() - 1];
        if before.contains(last) {
            let k = choose|k: int| 0 <= k < before.len() && before[k] == last;
            assert(tags[k] == last);
        }
        assert(before.push(last) =~= tags);
    } else {
        assert(tags_of(fragments) =~= tags);
    }
}

/// **Joined tags read back**: distinct tags that normalizing leaves as they are
/// come back from their list, whether a comma or a comma and a space stands
/// between them.
pub proof fn law_joined_tags_read_back(tags: Seq<Seq<char>>)
    requires
        tags.no_duplicates(),
        forall|i: int| 0 <= i < tags.len() ==> (#[trigger] tags[i]).len() > 0 && settled(tags[i]),
    ensures
        tags_of(text::split_at(text::joined(tags, ","@), ',')) == tags,
        tags_of(text::split_at(text::joined(tags, ", "@), ',')) == tags,
{
    reveal_strlit(",");
    reveal_strlit(", ");
    let none = Seq::<char>::empty();
    let space = seq![' '];
    assert(","@ =~= seq![','] + none);
    assert(", "@ =~= seq![','] + space);
    if tags.len() == 0 {
        let one: Seq<Seq<char>> = seq![none];
        assert(text::split_at(none, ',') =~= one);
        assert(one.drop_last() =~= seq![]);
        assert(as_tag(none) =~= none);
        assert(tags_of(one.drop_last()) =~= tags);
        assert(tags_of(one) =~= tags);
    } else {
        assert forall|i: int| 0 <= i < tags.len() implies !(#[trigger] tags[i]).contains(',') by {
            assert(settled(tags[i]));
        }
        text::lemma_split_of_joined(tags, ',', none);
        text::lemma_split_of_joined(tags, ',', space);
        assert forall|i: int| 0 <= i < tags.len() implies (#[trigger] tags[i]).len() > 0 && as_tag(
            text::padded(tags, none)[i],
        ) == tags[i] && as_tag(text::padded(tags, space)[i]) == tags[i] by {
            assert(settled(tags[i]));
            assert(none + tags[i] =~= tags[i]);
            text::lemma_trimmed_behind_white_space(tags[i], ' ');
        }
        lemma_distinct_tags_stay(text::padded(tags, none), tags);
        lemma_distinct_tags_stay(text::padded(tags, space), tags);
    }
}

/// The tag that an ASCII fragment makes is settled.
proof fn lemma_an_ascii_tag_is_settled(fragment: Seq<char>)
    requires
        text::all_ascii(text::trimmed(fragment)),
        !fragment.contains(','),
    ensures
        settled(as_tag(fragment)),
{
    let bare = text::trimmed(fragment);
    let tag = as_tag(fragment);
    text::lemma_trimmed_is_bare(fragment);
    assert(tag.len() == bare.len());
    assert forall|i: int| 0 <= i < tag.len() implies #[trigger] tag[i] <= '\u{7f}' && tag[i] != ','
        && text::ascii_lower(tag[i]) == tag[i] && text::white_space(tag[i]) == text::white_space(
        bare[i],
    ) by {
        assert(tag[i] == text::ascii_lower(bare[i]));
        assert(bare[i] <= '\u{7f}');
        assert(fragment.contains(bare[i]));
    }
    assert(text::bare(tag));
    assert(text::trimmed(tag) == tag);
    assert(text::lowered(tag) =~= tag);
}

/// **Normalizing again changes nothing**, whether a comma or a comma and a
/// space stands between the tags. Of a tag beyond ASCII that takes that
/// lowercasing left it settled.
pub proof fn law_normalizing_again_changes_nothing(input: Seq<char>)
    requires
        forall|i: int|
            0 <= i < text::split_at(input, ',').len() && !text::all_ascii(
                text::trimmed(text::split_at(input, ',')[i]),
            ) ==> settled(as_tag(#[trigger] text::split_at(input, ',')[i])),
    ensures
        ({
            let tags = tags_of(text::split_at(input, ','));
            &&& tags_of(text::split_at(text::joined(tags, ","@), ',')) == tags
            &&& tags_of(text::split_at(text::joined(tags, ", "@), ',')) == tags
        }),
{
    let fragments = text::split_at(input, ',');
    let tags = tags_of(fragments);
    law_tags_are_the_distinct_fragments(fragments);
    text::lemma_pieces_are_of_the_text(input, ',');
    assert forall|i: int| 0 <= i < tags.len() implies (#[trigger] tags[i]).len() > 0 && settled(
        tags[i],
    ) by {
        assert(tags.contains(tags[i]));
        let k = choose|k: int|
            0 <= k < fragments.len() && as_tag(#[trigger] fragments[k]) == tags[i];
        if text::all_ascii(text::trimmed(fragments[k])) {
            if fragments[k].contains(',') {
                let at = choose|at: int|
                    0 <= at < fragments[k].len() && fragments[k][at] == ',';
                assert(fragments[k][at] != ',');
            }
            lemma_an_ascii_tag_is_settled(fragments[k]);
        }
    }
    law_joined_tags_read_back(tags);
}

/// **Normalizing ASCII again changes nothing**, whether a comma or a comma and
/// a space stands between the tags.
pub proof fn law_normalizing_ascii_again_changes_nothing(input: Seq<char>)
    requires
        text::all_ascii(input),
    ensures
        ({
            let tags = tags_of(text::split_at(input, ','));
            &&& tags_of(text::split_at(text::joined(tags, ","@), ',')) == tags
            &&& tags_of(text::split_at(text::joined(tags, ", "@), ',')) == tags
        }),
{
    let fragments = text::split_at(input, ',');
    text::lemma_pieces_are_of_the_text(input, ',');
    assert forall|i: int| 0 <= i < fragments.len() implies text::all_ascii(
        text::trimmed(#[trigger] fragments[i]),
    ) by {
        let bare = text::trimmed(fragments[i]);
        text::lemma_trimmed_is_bare(fragments[i]);
        assert forall|k: int| 0 <= k < bare.len() implies #[trigger] bare[k] <= '\u{7f}' by {
            let c = bare[k];
            assert(fragments[i].contains(c));
            let at = choose|at: int| 0 <= at < fragments[i].len() && fragments[i][at] == c;
            assert(input.contains(fragments[i][at]));
            let from = choose|from: int| 0 <= from < input.len() && input[from] == c;
            assert(input[from] <= '\u{7f}');
        }
    }
    law_normalizing_again_changes_nothing(input);
}

/// **A tag is its fragment without the blanks around it, in lowercase.** This
/// says it of ASCII text, letter by letter.
pub proof fn law_a_tag_is_trimmed_and_lowercased(fragment: Seq<char>, i: int)
    requires
        forall|k: int| 0 <= k < fragment.len() ==> #[trigger] fragment[k] <= '\u{7f}',
        0 <= i < text::trimmed(fragment).len(),
    ensures
        as_tag(fragment).len() == text::trimmed(fragment).len(),
        ({
            let c = text::trimmed(fragment)[i];
            &&& 'A' <= c <= 'Z' ==> as_tag(fragment)[i] as int == c as int + 32
            &&& !('A' <= c <= 'Z') ==> as_tag(fragment)[i] == c
        }),
{
    let kept = text::law_trimming_takes_white_space_off_both_ends(fragment);
    assert(text::all_ascii(text::trimmed(fragment))) by {
        assert forall|k: int| 0 <= k < text::trimmed(fragment).len() implies #[trigger]
            text::trimmed(fragment)[k] <= '\u{7f}' by {
            assert(text::trimmed(fragment)[k] == fragment[kept.0 + k]);
        }
    }
}

/// **Typed tags are what stands between the commas**, each once, none empty.
pub proof fn law_typed_tags_are_what_stands_between_the_commas(
    input: &str,
    tags: Vec<String>,
    i: int,
    tag: Seq<char>,
)
    requires
        call_ensures(normalize_tags, (input,), tags),
    ensures
        text::texts(tags@).no_duplicates(),
        text::texts(tags@).contains(tag) <==> tag.len() > 0 && exists|k: int|
            0 <= k < text::split_at(input@, ',').len() && text::lowered(
                text::trimmed(#[trigger] text::split_at(input@, ',')[k]),
            ) == tag,
        0 <= i < tags@.len() ==> tags@[i]@.len() > 0,
{
    let fragments = text::split_at(input@, ',');
    law_tags_are_the_distinct_fragments(fragments);
    if text::texts(tags@).contains(tag) {
        let k = choose|k: int| 0 <= k < fragments.len() && as_tag(#[trigger] fragments[k]) == tag;
        assert(text::lowered(text::trimmed(fragments[k])) == tag);
    }
    if tag.len() > 0 && exists|k: int|
        0 <= k < fragments.len() && text::lowered(text::trimmed(#[trigger] fragments[k])) == tag {
        let k = choose|k: int|
            0 <= k < fragments.len() && text::lowered(text::trimmed(#[trigger] fragments[k]))
                == tag;
        assert(as_tag(fragments[k]) == tag);
    }
    if 0 <= i < tags@.len() {
        assert(text::texts(tags@)[i] == tags@[i]@);
        assert(tags_of(fragments).contains(tags@[i]@));
    }
}

} // verus!
