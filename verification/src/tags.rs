use vstd::prelude::*;

verus! {

/// Name for what `char::is_whitespace` returns: whether a character counts
/// as whitespace depends on the character alone.
pub uninterp spec fn is_space(c: char) -> bool;

/// Relies on char::is_whitespace, to decide whether one character is
/// whitespace.
#[verifier::external_body]
pub fn char_is_space(c: char) -> (r: bool)
    ensures
        r == is_space(c),
{
    c.is_whitespace()
}

/// The text with leading whitespace removed.
pub open spec fn trim_start_spec(s: Seq<char>) -> Seq<char>
    decreases s.len(),
{
    if s.len() > 0 && is_space(s[0]) {
        trim_start_spec(s.skip(1))
    } else {
        s
    }
}

/// The text with trailing whitespace removed.
pub open spec fn trim_end_spec(s: Seq<char>) -> Seq<char>
    decreases s.len(),
{
    if s.len() > 0 && is_space(s.last()) {
        trim_end_spec(s.drop_last())
    } else {
        s
    }
}

/// The text with leading and trailing whitespace removed, as `str::trim`
/// defines it.
pub open spec fn trim_spec(s: Seq<char>) -> Seq<char> {
    trim_end_spec(trim_start_spec(s))
}

/// Trims leading and trailing whitespace from a string.
pub fn trim_str(s: &str) -> (r: String)
    ensures
        r@ == trim_spec(s@),
{
    let len = s.unicode_len();
    let mut start: usize = 0;
    assert(s@.skip(0) =~= s@);
    while start < len && char_is_space(s.get_char(start))
        invariant
            start <= len,
            len == s@.len(),
            trim_start_spec(s@) == trim_start_spec(s@.skip(start as int)),
        decreases len - start,
    {
        assert(s@.skip(start as int)[0] == s@[start as int]);
        assert(s@.skip(start as int).skip(1) =~= s@.skip(start + 1));
        start = start + 1;
    }
    if start == len {
        assert(s@.skip(start as int).len() == 0);
    }
    assert(trim_start_spec(s@) == s@.skip(start as int));
    let mut end: usize = len;
    assert(s@.subrange(start as int, end as int) =~= s@.skip(start as int));
    while end > start && char_is_space(s.get_char(end - 1))
        invariant
            start <= end <= len,
            len == s@.len(),
            trim_spec(s@) == trim_end_spec(s@.subrange(start as int, end as int)),
        decreases end,
    {
        assert(s@.subrange(start as int, end as int).last() == s@[end - 1]);
        assert(s@.subrange(start as int, end as int).drop_last() =~= s@.subrange(
            start as int,
            end - 1,
        ));
        end = end - 1;
    }
    let piece = s.substring_char(start, end);
    piece.to_owned()
}

/// Index of the first comma in the text, or -1 when it has none.
pub open spec fn find_comma(s: Seq<char>) -> int
    decreases s.len(),
{
    if s.len() == 0 {
        -1
    } else if s[0] == ',' {
        0
    } else {
        let r = find_comma(s.skip(1));
        if r < 0 {
            -1
        } else {
            r + 1
        }
    }
}

/// The pieces of the text between its commas, in order; a text with no
/// comma is one piece, and a trailing comma yields a trailing empty piece.
pub open spec fn split_str(s: Seq<char>) -> Seq<Seq<char>>
    decreases s.len(),
{
    if s.len() == 0 {
        seq![Seq::empty()]
    } else if s[0] == ',' {
        seq![Seq::<char>::empty()] + split_str(s.skip(1))
    } else {
        let rest = split_str(s.skip(1));
        seq![seq![s[0]] + rest[0]] + rest.skip(1)
    }
}

/// How a stored tag string decodes: split on commas, each piece trimmed.
pub open spec fn split_trim(s: Seq<char>) -> Seq<Seq<char>> {
    split_str(s).map_values(|p: Seq<char>| trim_spec(p))
}

/// A split always yields at least one piece.
pub proof fn lemma_split_len(s: Seq<char>)
    ensures
        split_str(s).len() >= 1,
    decreases s.len(),
{
    if s.len() > 0 && s[0] != ',' {
        lemma_split_len(s.skip(1));
    }
}

/// A comma-free text splits into itself alone.
pub proof fn lemma_split_no_comma(s: Seq<char>)
    requires
        forall|i: int| 0 <= i < s.len() ==> s[i] != ',',
    ensures
        split_str(s) == seq![s],
    decreases s.len(),
{
    if s.len() == 0 {
        assert(s =~= Seq::<char>::empty());
        assert(split_str(s) =~~= seq![s]);
    } else {
        assert(forall|i: int| 0 <= i < s.skip(1).len() ==> #[trigger] s.skip(1)[i] != ',');
        lemma_split_no_comma(s.skip(1));
        assert(seq![s[0]] + s.skip(1) =~= s);
        assert(split_str(s) =~~= seq![s]);
    }
}

/// Splitting at the first comma: the piece before it, then the split of
/// what follows it.
pub proof fn lemma_split_at_comma(s: Seq<char>, k: int)
    requires
        0 <= k < s.len(),
        s[k] == ',',
        forall|i: int| 0 <= i < k ==> s[i] != ',',
    ensures
        split_str(s) == seq![s.take(k)] + split_str(s.skip(k + 1)),
    decreases k,
{
    if k == 0 {
        assert(s.take(0) =~= Seq::<char>::empty());
        assert(split_str(s) =~~= seq![s.take(0)] + split_str(s.skip(1)));
    } else {
        let t = s.skip(1);
        assert(t[k - 1] == ',');
        assert(forall|i: int| 0 <= i < k - 1 ==> #[trigger] t[i] != ',');
        lemma_split_at_comma(t, k - 1);
        lemma_split_len(t.skip(k));
        assert(t.skip(k) =~= s.skip(k + 1));
        assert(seq![s[0]] + t.take(k - 1) =~= s.take(k));
        assert(split_str(s) =~~= seq![s.take(k)] + split_str(s.skip(k + 1)));
    }
}

/// Splits a stored tag string on commas and trims each piece.
pub fn decode_tags(s: &str) -> (r: Vec<String>)
    ensures
        r.deep_view() == split_trim(s@),
{
    let len = s.unicode_len();
    let mut out: Vec<String> = Vec::new();
    let mut start: usize = 0;
    let mut i: usize = 0;
    proof {
        assert(s@.skip(0) =~= s@);
        assert(out.deep_view() =~~= Seq::<Seq<char>>::empty());
        assert(split_trim(s@) =~~= out.deep_view() + split_trim(s@));
    }
    while i < len
        invariant
            start <= i <= len,
            len == s@.len(),
            forall|j: int| start <= j < i ==> s@[j] != ',',
            split_trim(s@) =~~= out.deep_view() + split_trim(s@.skip(start as int)),
        decreases len - i,
    {
        let c = s.get_char(i);
        if c == ',' {
            let piece = s.substring_char(start, i);
            let trimmed = trim_str(piece);
            proof {
                let rem = s@.skip(start as int);
                assert(rem[i - start] == ',');
                assert(forall|j: int| 0 <= j < i - start ==> #[trigger] rem[j] != ',');
                lemma_split_at_comma(rem, i - start);
                assert(rem.take(i - start) =~= s@.subrange(start as int, i as int));
                assert(rem.skip(i - start + 1) =~= s@.skip(i + 1));
                assert(split_str(rem).map_values(|p: Seq<char>| trim_spec(p)) =~~= seq![
                    trim_spec(s@.subrange(start as int, i as int)),
                ] + split_trim(s@.skip(i + 1)));
            }
            out.push(trimmed);
            proof {
                assert(split_trim(s@) =~~= out.deep_view() + split_trim(s@.skip(i + 1)));
            }
            start = i + 1;
        }
        i = i + 1;
    }
    let piece = s.substring_char(start, len);
    let trimmed = trim_str(piece);
    proof {
        let rem = s@.skip(start as int);
        assert(forall|j: int| 0 <= j < rem.len() ==> #[trigger] rem[j] != ',');
        lemma_split_no_comma(rem);
        assert(rem =~= s@.subrange(start as int, len as int));
    }
    out.push(trimmed);
    proof {
        assert(out.deep_view() =~~= split_trim(s@));
    }
    out
}

/// Joins tags with commas: the stored form of a tag list.
pub open spec fn join_tags(tags: Seq<Seq<char>>) -> Seq<char>
    decreases tags.len(),
{
    if tags.len() == 0 {
        Seq::empty()
    } else if tags.len() == 1 {
        tags[0]
    } else {
        tags[0] + seq![','] + join_tags(tags.skip(1))
    }
}

/// Joining one more tag appends a comma and the tag.
pub proof fn lemma_join_push(tags: Seq<Seq<char>>, t: Seq<char>)
    requires
        tags.len() > 0,
    ensures
        join_tags(tags.push(t)) == join_tags(tags) + seq![','] + t,
    decreases tags.len(),
{
    let p = tags.push(t);
    if tags.len() == 1 {
        assert(p.len() == 2);
        assert(p.skip(1) =~~= seq![t]);
        assert(join_tags(seq![t]) == seq![t][0]);
        assert(p[0] == tags[0]);
        assert(join_tags(p) == tags[0] + seq![','] + t);
    } else {
        assert(p.skip(1) =~~= tags.skip(1).push(t));
        lemma_join_push(tags.skip(1), t);
        assert(join_tags(p) =~= join_tags(tags) + seq![','] + t);
    }
}

/// Joins a tag list into its stored comma-separated form.
pub fn encode_tags(tags: &Vec<String>) -> (r: String)
    ensures
        r@ == join_tags(tags.deep_view()),
{
    let mut out = String::new();
    let mut i: usize = 0;
    while i < tags.len()
        invariant
            i <= tags.len(),
            out@ == join_tags(tags.deep_view().take(i as int)),
        decreases tags.len() - i,
    {
        if i > 0 {
            out.append(",");
            proof {
                reveal_strlit(",");
                assert(","@ =~= seq![',']);
            }
        }
        out.append(tags[i].as_str());
        proof {
            let tv = tags.deep_view();
            assert(tv.take(i as int).push(tv[i as int]) =~~= tv.take(i + 1));
            assert(tv[i as int] == tags@[i as int]@);
            if i > 0 {
                lemma_join_push(tv.take(i as int), tv[i as int]);
            } else {
                assert(join_tags(tv.take(1)) == tv.take(1)[0]);
            }
        }
        i = i + 1;
    }
    proof {
        assert(tags.deep_view().take(tags.len() as int) =~~= tags.deep_view());
    }
    out
}

/// A comma appears nowhere in the text.
pub open spec fn comma_free(s: Seq<char>) -> bool {
    forall|i: int| 0 <= i < s.len() ==> s[i] != ','
}

/// Tag round trip: a non-empty list of comma-free, already-trimmed tags is
/// reproduced exactly by encoding to the stored comma-joined form and
/// decoding it again.
pub proof fn lemma_tags_round_trip(tags: Seq<Seq<char>>)
    requires
        tags.len() > 0,
        forall|i: int| 0 <= i < tags.len() ==> comma_free(#[trigger] tags[i]),
        forall|i: int| 0 <= i < tags.len() ==> trim_spec(#[trigger] tags[i]) == tags[i],
    ensures
        split_trim(join_tags(tags)) == tags,
    decreases tags.len(),
{
    let j = join_tags(tags);
    if tags.len() == 1 {
        assert(j == tags[0]);
        lemma_split_no_comma(j);
        assert(split_trim(j) =~~= seq![trim_spec(tags[0])]);
        assert(split_trim(j) =~~= tags);
    } else {
        let rest = tags.skip(1);
        assert(forall|i: int| 0 <= i < rest.len() ==> comma_free(#[trigger] rest[i]));
        assert(forall|i: int|
            0 <= i < rest.len() ==> trim_spec(#[trigger] rest[i]) == rest[i]);
        lemma_tags_round_trip(rest);
        let k = tags[0].len() as int;
        assert(j == tags[0] + seq![','] + join_tags(rest));
        assert(j[k] == ',');
        assert(forall|i: int| 0 <= i < k ==> j[i] == #[trigger] tags[0][i]);
        lemma_split_at_comma(j, k);
        assert(j.take(k) =~= tags[0]);
        assert(j.skip(k + 1) =~= join_tags(rest));
        lemma_split_len(j.skip(k + 1));
        assert(split_trim(j) =~~= seq![trim_spec(tags[0])] + split_trim(join_tags(rest)));
        assert(split_trim(j) =~~= tags);
    }
}

} // verus!
