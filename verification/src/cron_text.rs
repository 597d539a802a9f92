//! Cron expressions as they are written, and the form that the scheduler takes.
use crate::text::{
    chars_of, count_words, is_white_space, law_padding_is_trimmed, lemma_trim_both,
    lemma_trimmed_off, same_text, text_of, trim_both, trim_start, trimmed, white_space, word_count,
    word_starts,
};
use vstd::prelude::*;

verus! {

/// What is wrong with a cron expression before its fields are looked at.
#[derive(Debug, Clone, Copy, PartialEq, Eq, Structural)]
pub enum CronTextError {
    /// There is nothing in it.
    Empty,
    /// It has this many fields, in place of five, six or seven.
    FieldCount(usize),
}

/// What the name of a schedule stands for.
pub open spec fn alias(text: Seq<char>) -> Option<Seq<char>> {
    if text == "@yearly"@ || text == "@annually"@ {
        Some("0 0 0 1 1 *"@)
    } else if text == "@monthly"@ {
        Some("0 0 0 1 * *"@)
    } else if text == "@weekly"@ {
        Some("0 0 0 * * 0"@)
    } else if text == "@daily"@ || text == "@midnight"@ {
        Some("0 0 0 * * *"@)
    } else if text == "@hourly"@ {
        Some("0 0 * * * *"@)
    } else {
        None
    }
}

/// The form of a cron expression that begins with the seconds.
///
/// White space goes from both ends. A name becomes what it stands for. Five fields begin with the
/// minutes: they get second 0 in front.
pub open spec fn with_seconds(raw: Seq<char>) -> Result<Seq<char>, CronTextError> {
    let text = trim_both(raw, white_space());
    if text.len() == 0 {
        Err(CronTextError::Empty)
    } else if alias(text) is Some {
        Ok(alias(text)->0)
    } else if word_count(text) == 5 {
        Ok("0 "@ + text)
    } else if word_count(text) == 6 || word_count(text) == 7 {
        Ok(text)
    } else {
        Err(CronTextError::FieldCount(word_count(text) as usize))
    }
}

/// What the name of a schedule stands for.
fn expansion(text: &str) -> (r: Option<&'static str>)
    ensures
        alias(text@) == (match r {
            Some(expanded) => Some(expanded@),
            None => None,
        }),
{
    if same_text(text, "@yearly") || same_text(text, "@annually") {
        Some("0 0 0 1 1 *")
    } else if same_text(text, "@monthly") {
        Some("0 0 0 1 * *")
    } else if same_text(text, "@weekly") {
        Some("0 0 0 * * 0")
    } else if same_text(text, "@daily") || same_text(text, "@midnight") {
        Some("0 0 0 * * *")
    } else if same_text(text, "@hourly") {
        Some("0 0 * * * *")
    } else {
        None
    }
}

/// The form of a cron expression that begins with the seconds.
pub fn normalize_cron(raw: &str) -> (r: Result<String, CronTextError>)
    ensures
        with_seconds(raw@) == (match r {
            Ok(text) => Ok(text@),
            Err(error) => Err(error),
        }),
{
    let chars: Vec<char> = trimmed(&chars_of(raw));
    if chars.len() == 0 {
        return Err(CronTextError::Empty);
    }
    let text: String = text_of(&chars);
    if let Some(expanded) = expansion(text.as_str()) {
        return Ok(expanded.to_owned());
    }
    let count: usize = count_words(&chars);
    if count == 5 {
        let mut whole: String = "0 ".to_owned();
        whole.append(text.as_str());
        Ok(whole)
    } else if count == 6 || count == 7 {
        Ok(text)
    } else {
        Err(CronTextError::FieldCount(count))
    }
}

/// Trimming leaves a text alone that has nothing to drop at either end.
proof fn lemma_nothing_to_trim(text: Seq<char>)
    requires
        text.len() > 0,
        !is_white_space(text[0]),
        !is_white_space(text.last()),
    ensures
        trim_both(text, white_space()) == text,
{
    assert(trim_start(text, white_space()) == text);
}

/// What trimming leaves has no white space at either end.
proof fn lemma_trimmed_ends(raw: Seq<char>)
    ensures
        ({
            let text = trim_both(raw, white_space());
            text.len() > 0 ==> !is_white_space(text[0]) && !is_white_space(text.last())
        }),
{
    lemma_trim_both(raw, white_space());
}

/// Second 0 in front makes one more field.
proof fn lemma_one_more_field(text: Seq<char>)
    requires
        text.len() > 0 ==> !is_white_space(text[0]),
    ensures
        word_count(seq!['0', ' '] + text) == 1 + word_count(text),
    decreases text.len(),
{
    let front = seq!['0', ' '];
    let whole = front + text;
    if text.len() == 0 {
        assert(whole =~= front);
        assert(front.drop_last() =~= seq!['0']);
        assert(seq!['0'].drop_last() =~= Seq::<char>::empty());
        assert(word_count(Seq::<char>::empty()) == 0);
        assert(word_starts(seq!['0'], 0));
        assert(word_count(seq!['0']) == 1);
        assert(!word_starts(front, 1));
    } else {
        lemma_one_more_field(text.drop_last());
        assert(whole.drop_last() =~= front + text.drop_last());
        let last = text.len() - 1;
        assert(whole[last + 2] == text[last]);
        if last > 0 {
            assert(whole[last + 1] == text[last - 1]);
        } else {
            assert(whole[1] == ' ');
            assert(is_white_space(' '));
        }
        assert(word_starts(whole, whole.len() - 1) == word_starts(text, last));
    }
}

/// What a name stands for has six fields and neither white space at its ends nor a name's `@`.
proof fn lemma_aliases(text: Seq<char>)
    requires
        alias(text) is Some,
    ensures
        ({
            let expanded = alias(text)->0;
            &&& word_count(expanded) == 6
            &&& expanded.len() > 0
            &&& expanded[0] == '0'
            &&& !is_white_space(expanded.last())
        }),
{
    reveal_strlit("0 0 0 1 1 *");
    reveal_strlit("0 0 0 1 * *");
    reveal_strlit("0 0 0 * * 0");
    reveal_strlit("0 0 0 * * *");
    reveal_strlit("0 0 * * * *");
    let expanded = alias(text)->0;
    assert(expanded.len() == 11);
    assert forall|i: int| 0 <= i < 11 implies is_white_space(#[trigger] expanded[i]) == (i % 2
        == 1) by {}
    lemma_alternating(expanded, 11);
    assert(expanded.take(11) =~= expanded);
}

/// Every other character being a space, there are half as many words as characters.
proof fn lemma_alternating(text: Seq<char>, n: int)
    requires
        0 <= n <= text.len(),
        forall|i: int| 0 <= i < text.len() ==> is_white_space(#[trigger] text[i]) == (i % 2 == 1),
    ensures
        word_count(text.take(n)) == (n + 1) / 2,
    decreases n,
{
    if n > 0 {
        lemma_alternating(text, n - 1);
        assert(text.take(n).drop_last() =~= text.take(n - 1));
        let last = n - 1;
        assert(text.take(n)[last] == text[last]);
        if last > 0 {
            assert(text.take(n)[last - 1] == text[last - 1]);
        }
        assert(word_starts(text.take(n), last) == (last % 2 == 0));
    }
}

/// A text that does not begin with `@` is no name.
proof fn lemma_names_begin_with_at(text: Seq<char>)
    requires
        text.len() > 0,
        text[0] != '@',
    ensures
        alias(text) is None,
{
    reveal_strlit("@yearly");
    reveal_strlit("@annually");
    reveal_strlit("@monthly");
    reveal_strlit("@weekly");
    reveal_strlit("@daily");
    reveal_strlit("@midnight");
    reveal_strlit("@hourly");
}

/// A normalized cron expression has six or seven fields, and no white space at either end.
pub proof fn law_normalized_cron_has_seconds(raw: Seq<char>)
    requires
        with_seconds(raw) is Ok,
    ensures
        ({
            let text = with_seconds(raw)->Ok_0;
            &&& word_count(text) == 6 || word_count(text) == 7
            &&& trim_both(text, white_space()) == text
        }),
{
    let text = trim_both(raw, white_space());
    lemma_trimmed_ends(raw);
    if alias(text) is Some {
        lemma_aliases(text);
        lemma_nothing_to_trim(alias(text)->0);
    } else if word_count(text) == 5 {
        reveal_strlit("0 ");
        assert("0 "@ =~= seq!['0', ' ']);
        lemma_one_more_field(text);
        let whole = "0 "@ + text;
        assert(whole.last() == text.last());
        lemma_nothing_to_trim(whole);
    } else {
        lemma_nothing_to_trim(text);
    }
}

/// Normalizing a cron expression twice is normalizing it once.
pub proof fn law_normalizing_cron_is_idempotent(raw: Seq<char>)
    requires
        with_seconds(raw) is Ok,
    ensures
        with_seconds(with_seconds(raw)->Ok_0) == with_seconds(raw),
{
    law_normalized_cron_has_seconds(raw);
    let text = trim_both(raw, white_space());
    if alias(text) is Some {
        lemma_aliases(text);
        lemma_names_begin_with_at(alias(text)->0);
    } else if word_count(text) == 5 {
        reveal_strlit("0 ");
        lemma_names_begin_with_at("0 "@ + text);
    }
}

/// White space around a cron expression makes no difference.
pub proof fn law_padding_makes_no_difference(
    raw: &str,
    r: Result<String, CronTextError>,
    padded: &str,
    q: Result<String, CronTextError>,
    before: Seq<char>,
    behind: Seq<char>,
)
    requires
        call_ensures(normalize_cron, (raw,), r),
        call_ensures(normalize_cron, (padded,), q),
        padded@ == before + raw@ + behind,
        forall|i: int| 0 <= i < before.len() ==> is_white_space(#[trigger] before[i]),
        forall|i: int| 0 <= i < behind.len() ==> is_white_space(#[trigger] behind[i]),
    ensures
        match (r, q) {
            (Ok(a), Ok(b)) => a@ == b@,
            (Err(a), Err(b)) => a == b,
            _ => false,
        },
{
    law_padding_is_trimmed(before, raw@, behind);
}

/// Five fields are taken to begin with the minutes: second 0 goes before them. Six or seven stay as
/// they are, and any other number is refused, as is a text without a field.
pub proof fn law_fields_are_kept(raw: &str, r: Result<String, CronTextError>)
    requires
        call_ensures(normalize_cron, (raw,), r),
    ensures
        raw@.len() > 0 && raw@[0] != '@' && !is_white_space(raw@[0]) && !is_white_space(raw@.last())
            ==> match r {
            Ok(text) => if word_count(raw@) == 5 {
                text@ == seq!['0', ' '] + raw@
            } else {
                text@ == raw@ && 6 <= word_count(raw@) <= 7
            },
            Err(error) => (word_count(raw@) < 5 || word_count(raw@) > 7) && error
                == CronTextError::FieldCount(word_count(raw@) as usize),
        },
        (forall|i: int| 0 <= i < raw@.len() ==> is_white_space(#[trigger] raw@[i])) ==> r == Err::<
            String,
            CronTextError,
        >(CronTextError::Empty),
{
    if raw@.len() > 0 && raw@[0] != '@' && !is_white_space(raw@[0]) && !is_white_space(
        raw@.last(),
    ) {
        lemma_nothing_to_trim(raw@);
        lemma_names_begin_with_at(raw@);
        reveal_strlit("0 ");
        assert("0 "@ =~= seq!['0', ' ']);
    }
    if forall|i: int| 0 <= i < raw@.len() ==> is_white_space(#[trigger] raw@[i]) {
        let (a, b) = lemma_trimmed_off(raw@, white_space());
        if a < b {
            assert(is_white_space(raw@[a]));
        }
    }
}

/// The names of schedules begin with `@`, and what they stand for begins at second 0 and minute 0.
pub proof fn law_named_schedules_begin_on_the_hour(raw: &str, r: Result<String, CronTextError>)
    requires
        call_ensures(normalize_cron, (raw,), r),
        alias(raw@) is Some,
    ensures
        raw@[0] == '@',
        r matches Ok(text) && text@.len() > 4 && text@.take(4) == seq!['0', ' ', '0', ' '],
{
    reveal_strlit("@yearly");
    reveal_strlit("@annually");
    reveal_strlit("@monthly");
    reveal_strlit("@weekly");
    reveal_strlit("@daily");
    reveal_strlit("@midnight");
    reveal_strlit("@hourly");
    reveal_strlit("0 0 0 1 1 *");
    reveal_strlit("0 0 0 1 * *");
    reveal_strlit("0 0 0 * * 0");
    reveal_strlit("0 0 0 * * *");
    reveal_strlit("0 0 * * * *");
    assert(raw@[0] == '@');
    assert(!is_white_space(raw@.last()));
    lemma_nothing_to_trim(raw@);
    assert(alias(raw@)->0.take(4) =~= seq!['0', ' ', '0', ' ']);
}

} // verus!
