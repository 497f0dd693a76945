//! What the game sends with a sync.
use crate::json::{json_parse, Json, JsonView};
use crate::text::{chars_of, decode_lossy, lossy_text, text_view};
use vstd::prelude::*;
use vstd::utf8::{decode_utf8, valid_utf8};

verus! {

/// A text with each `\'` in it turned into `'`, from left to right.
pub open spec fn unescaped(text: Seq<char>) -> Seq<char>
    decreases text.len(),
{
    if text.len() == 0 {
        Seq::empty()
    } else if text.len() >= 2 && text[0] == '\\' && text[1] == '\'' {
        seq!['\''] + unescaped(text.skip(2))
    } else {
        seq![text[0]] + unescaped(text.skip(1))
    }
}

/// Turns each `\'` into `'`. The game writes single quotes that way, which is
/// no JSON.
pub fn fix_quotes(text: &str) -> (fixed: String)
    ensures
        fixed@ == unescaped(text@),
{
    let chars = chars_of(text);
    let mut fixed = String::new();
    let mut i: usize = 0;
    assert(text@.skip(0) =~= text@);
    while i < chars.len()
        invariant
            chars@ == text@,
            i <= chars@.len(),
            fixed@ + unescaped(text@.skip(i as int)) == unescaped(text@),
        decreases chars@.len() - i,
    {
        let ghost rest = text@.skip(i as int);
        let ghost done = fixed@;
        if chars[i] == '\\' && i + 1 < chars.len() && chars[i + 1] == '\'' {
            fixed.push('\'');
            assert(rest.skip(2) =~= text@.skip(i + 2));
            i += 2;
        } else {
            fixed.push(chars[i]);
            assert(rest.skip(1) =~= text@.skip(i + 1));
            i += 1;
        }
        assert(fixed@ + unescaped(text@.skip(i as int)) =~= done + unescaped(rest));
    }
    assert(fixed@ + unescaped(text@.skip(i as int)) =~= fixed@);
    fixed
}

/// A text without a `\'` stays as it is.
pub proof fn law_plain_text_stays(text: Seq<char>)
    requires
        forall|i: int|
            0 <= i < text.len() - 1 ==> !(#[trigger] text[i] == '\\' && text[i + 1] == '\''),
    ensures
        unescaped(text) == text,
    decreases text.len(),
{
    if text.len() > 0 {
        let rest = text.skip(1);
        assert forall|i: int| 0 <= i < rest.len() - 1 implies !(#[trigger] rest[i] == '\\'
            && rest[i + 1] == '\'') by {
            assert(!(text[i + 1] == '\\' && text[i + 1 + 1] == '\''));
        }
        law_plain_text_stays(rest);
        if text.len() >= 2 {
            assert(!(text[0] == '\\' && text[0int + 1] == '\''));
        }
        assert(seq![text[0]] + rest =~= text);
    } else {
        assert(unescaped(text) =~= text);
    }
}

/// The data that a text holds once its quotes are fixed: an empty object where
/// there is no text, and nothing where it is no JSON.
pub open spec fn payload_of(text: Seq<char>) -> Option<JsonView> {
    if unescaped(text).len() == 0 {
        Some(JsonView::Object(Map::empty()))
    } else {
        match json_parse(unescaped(text)) {
            Ok(data) => Some(data),
            Err(_) => None,
        }
    }
}

/// The data of a sync, read from its text.
pub fn read_payload(text: &str) -> (payload: Option<Json>)
    ensures
        match payload {
            Some(json) => payload_of(text@) == Some(json@),
            None => payload_of(text@) is None,
        },
{
    let fixed = fix_quotes(text);
    if fixed.as_str().is_empty() {
        Some(Json::object())
    } else {
        match Json::parse(fixed.as_str()) {
            Ok(json) => Some(json),
            Err(_) => None,
        }
    }
}

/// The data of a sync, read from the body of its request.
pub fn sync_payload(body: &[u8]) -> (payload: Option<Json>)
    ensures
        match payload {
            Some(json) => payload_of(lossy_text(body@)) == Some(json@),
            None => payload_of(lossy_text(body@)) is None,
        },
        valid_utf8(body@) ==> lossy_text(body@) == decode_utf8(body@),
{
    read_payload(decode_lossy(body).as_str())
}

/// The shard that a sync is for.
pub fn shard_of(payload: &Json) -> (shard: Option<String>)
    ensures
        text_view(shard) == payload@.text_field("shard_id"@),
{
    match payload.get_str("shard_id") {
        Some(text) => Some(text.to_owned()),
        None => None,
    }
}

/// Each `\'` in a text becomes `'`, and what stands before it and behind it is
/// treated alike.
pub proof fn law_escaped_quotes_become_quotes(before: Seq<char>, after: Seq<char>)
    ensures
        unescaped(before + seq!['\\', '\''] + after) == unescaped(before) + seq!['\''] + unescaped(
            after,
        ),
    decreases before.len(),
{
    let text = before + seq!['\\', '\''] + after;
    if before.len() == 0 {
        assert(text[0] == '\\' && text[1] == '\'');
        assert(text.skip(2) =~= after);
        assert(unescaped(before) =~= Seq::<char>::empty());
        assert(unescaped(text) =~= unescaped(before) + seq!['\''] + unescaped(after));
    } else if before.len() >= 2 && before[0] == '\\' && before[1] == '\'' {
        law_escaped_quotes_become_quotes(before.skip(2), after);
        assert(text.skip(2) =~= before.skip(2) + seq!['\\', '\''] + after);
        assert(unescaped(text) =~= unescaped(before) + seq!['\''] + unescaped(after));
    } else {
        law_escaped_quotes_become_quotes(before.skip(1), after);
        assert(text.skip(1) =~= before.skip(1) + seq!['\\', '\''] + after);
        assert(text[0] == before[0]);
        if before.len() >= 2 {
            assert(text[1] == before[1]);
        } else {
            assert(text[1] == '\\');
        }
        assert(unescaped(text) =~= unescaped(before) + seq!['\''] + unescaped(after));
    }
}

/// A body without a `\'` means what its JSON says: an empty one an empty object,
/// and one that is no JSON nothing.
pub proof fn law_plain_body_is_its_json(text: Seq<char>)
    requires
        forall|i: int|
            0 <= i < text.len() - 1 ==> !(#[trigger] text[i] == '\\' && text[i + 1] == '\''),
    ensures
        text.len() == 0 ==> payload_of(text) == Some(JsonView::Object(Map::empty())),
        text.len() > 0 ==> match json_parse(text) {
            Ok(json) => payload_of(text) == Some(json),
            Err(_) => payload_of(text) is None,
        },
{
    law_plain_text_stays(text);
}

/// A body with a `\'` means what it means with a `'` in its place, where there is
/// no further one.
pub proof fn law_escaped_quote_means_a_quote(before: Seq<char>, after: Seq<char>)
    requires
        forall|i: int|
            0 <= i < before.len() - 1 ==> !(#[trigger] before[i] == '\\' && before[i + 1] == '\''),
        forall|i: int|
            0 <= i < after.len() - 1 ==> !(#[trigger] after[i] == '\\' && after[i + 1] == '\''),
    ensures
        match json_parse(before + seq!['\''] + after) {
            Ok(json) => payload_of(before + seq!['\\', '\''] + after) == Some(json),
            Err(_) => payload_of(before + seq!['\\', '\''] + after) is None,
        },
{
    law_plain_text_stays(before);
    law_plain_text_stays(after);
    law_escaped_quotes_become_quotes(before, after);
}

/// A body means what it means once each `\'` in it is turned into `'`.
pub proof fn law_body_means_its_fixed_text(text: Seq<char>)
    ensures
        unescaped(text).len() > 0 ==> match json_parse(unescaped(text)) {
            Ok(json) => payload_of(text) == Some(json),
            Err(_) => payload_of(text) is None,
        },
        unescaped(text).len() == 0 <==> text.len() == 0,
{
}

} // verus!
