//! The commands that the backend has for the game: how they are told apart, how
//! those that were pushed are merged with those that a sync brings, and where
//! pushed ones wait.
use crate::json::{array_view, json_text, Json, JsonView, NumberView};
use crate::text::{
    decimal, law_signed_decimal_is_unambiguous, law_trimmed_is_what_stands_inside,
    lemma_decimal_digits, signed_decimal, trim, trimmed,
};
use vstd::prelude::*;

verus! {

// ---------------------------------------------------------------------------
// Telling commands apart.
// ---------------------------------------------------------------------------

/// When a command was queued, as text: nothing where it does not say, the text
/// itself where it says so in a string, and otherwise the JSON text.
pub open spec fn queued_text(command: JsonView) -> Seq<char> {
    match command.field("queued_at"@) {
        Some(JsonView::Null) => Seq::empty(),
        Some(JsonView::Text(text)) => text,
        Some(value) => trimmed(json_text(value), '"'),
        None => Seq::empty(),
    }
}

/// What a command says of its type.
pub open spec fn type_text(command: JsonView) -> Seq<char> {
    match command.text_field("type"@) {
        Some(text) => text,
        None => Seq::empty(),
    }
}

/// The data of a command, as JSON text; an empty object where it has none.
pub open spec fn data_text(command: JsonView) -> Seq<char> {
    match command.field("data"@) {
        Some(value) => json_text(value),
        None => json_text(JsonView::Object(Map::empty())),
    }
}

/// The key of a command: two commands with the same key are the same command.
pub open spec fn key_of(command: JsonView) -> Seq<char> {
    type_text(command) + "|"@ + queued_text(command) + "|"@ + data_text(command)
}

/// The key of a command.
pub fn command_key(command: &Json) -> (key: String)
    ensures
        key@ == key_of(command@),
{
    let mut key = match command.get_str("type") {
        Some(text) => text.to_owned(),
        None => String::new(),
    };
    key.append("|");
    let queued = match command.get("queued_at") {
        Some(Json::Null) => String::new(),
        Some(Json::Text(text)) => text.clone(),
        Some(value) => trim(value.to_text().as_str(), '"'),
        None => String::new(),
    };
    key.append(queued.as_str());
    key.append("|");
    let data = match command.get("data") {
        Some(value) => value.to_text(),
        None => Json::object().to_text(),
    };
    key.append(data.as_str());
    key
}

/// The value of a whole number.
pub open spec fn whole(value: JsonView) -> Option<int> {
    match value {
        JsonView::Number(NumberView::Unsigned(n)) => Some(n as int),
        JsonView::Number(NumberView::Negative(i)) => Some(i as int),
        _ => None,
    }
}

/// The time at which a command was queued, where it says so in a whole number.
pub open spec fn queued_number(command: JsonView) -> Option<int> {
    match command.field("queued_at"@) {
        Some(value) => whole(value),
        None => None,
    }
}

/// A whole number stands in the key as its decimal form, in which there is no
/// bar.
proof fn lemma_queued_number(command: JsonView)
    requires
        queued_number(command) is Some,
    ensures
        queued_text(command) == signed_decimal(queued_number(command)->0),
        !queued_text(command).contains('|'),
{
    let i = queued_number(command)->0;
    let text = signed_decimal(i);
    if i < 0 {
        lemma_decimal_digits((-i) as nat);
    } else {
        lemma_decimal_digits(i as nat);
    }
    assert(text.len() > 0 && text[0] != '"' && text.last() != '"');
    assert(trimmed(text, '"') == text);
}

/// Where a text starts with a part without a bar and a bar, both are determined
/// by the text, and so is the rest.
proof fn lemma_first_bar(a: Seq<char>, rest: Seq<char>, b: Seq<char>, other: Seq<char>)
    requires
        !a.contains('|'),
        !b.contains('|'),
        a + seq!['|'] + rest == b + seq!['|'] + other,
    ensures
        a == b,
        rest == other,
{
    let text = a + seq!['|'] + rest;
    let same = b + seq!['|'] + other;
    assert(text[a.len() as int] == '|');
    assert(same[b.len() as int] == '|');
    if a.len() < b.len() {
        assert(same[a.len() as int] == b[a.len() as int]);
        assert(b.contains('|'));
    }
    if b.len() < a.len() {
        assert(text[b.len() as int] == a[b.len() as int]);
        assert(a.contains('|'));
    }
    assert(text.take(a.len() as int) =~= a);
    assert(same.take(b.len() as int) =~= b);
    assert(text.skip(a.len() as int + 1) =~= rest);
    assert(same.skip(b.len() as int + 1) =~= other);
}

/// Where types and times hold no bar, two commands have the same key exactly
/// when they have the same type, the same time and the same data.
pub proof fn law_key_tells_parts_apart(a: JsonView, b: JsonView)
    requires
        !type_text(a).contains('|'),
        !type_text(b).contains('|'),
        !queued_text(a).contains('|'),
        !queued_text(b).contains('|'),
    ensures
        key_of(a) == key_of(b) <==> {
            &&& type_text(a) == type_text(b)
            &&& queued_text(a) == queued_text(b)
            &&& data_text(a) == data_text(b)
        },
{
    reveal_strlit("|");
    let bar = seq!['|'];
    assert("|"@ =~= bar);
    let rest_a = queued_text(a) + bar + data_text(a);
    let rest_b = queued_text(b) + bar + data_text(b);
    assert(key_of(a) =~= type_text(a) + bar + rest_a);
    assert(key_of(b) =~= type_text(b) + bar + rest_b);
    if key_of(a) == key_of(b) {
        lemma_first_bar(type_text(a), rest_a, type_text(b), rest_b);
        lemma_first_bar(queued_text(a), data_text(a), queued_text(b), data_text(b));
    }
}

/// Where types hold no bar and times are whole numbers, two commands have the
/// same key exactly when they have the same type, were queued at the same time
/// and have the same data.
pub proof fn law_key_tells_commands_apart(a: JsonView, b: JsonView)
    requires
        !type_text(a).contains('|'),
        !type_text(b).contains('|'),
        queued_number(a) is Some,
        queued_number(b) is Some,
    ensures
        key_of(a) == key_of(b) <==> {
            &&& type_text(a) == type_text(b)
            &&& queued_number(a) == queued_number(b)
            &&& data_text(a) == data_text(b)
        },
{
    lemma_queued_number(a);
    lemma_queued_number(b);
    law_key_tells_parts_apart(a, b);
    if key_of(a) == key_of(b) {
        law_signed_decimal_is_unambiguous(queued_number(a)->0, queued_number(b)->0);
    }
}

// ---------------------------------------------------------------------------
// Merging.
// ---------------------------------------------------------------------------

/// The place of the last command with the key `key`, or -1.
pub open spec fn place_of(commands: Seq<JsonView>, key: Seq<char>) -> int
    decreases commands.len(),
{
    if commands.len() == 0 {
        -1
    } else if key_of(commands.last()) == key {
        commands.len() - 1
    } else {
        place_of(commands.drop_last(), key)
    }
}

/// A list of commands without its repetitions: each command stands where its
/// key came first, in the form in which its key came last.
pub open spec fn merged(commands: Seq<JsonView>) -> Seq<JsonView>
    decreases commands.len(),
{
    if commands.len() == 0 {
        Seq::empty()
    } else {
        let done = merged(commands.drop_last());
        let place = place_of(done, key_of(commands.last()));
        if place >= 0 {
            done.update(place, commands.last())
        } else {
            done.push(commands.last())
        }
    }
}

/// The place lies in the list and holds a command with that key; where there is
/// none, no command has it.
proof fn lemma_place(commands: Seq<JsonView>, key: Seq<char>)
    ensures
        -1 <= place_of(commands, key) < commands.len(),
        place_of(commands, key) >= 0 ==> key_of(commands[place_of(commands, key)]) == key,
        forall|k: int|
            place_of(commands, key) < k < commands.len() ==> key_of(#[trigger] commands[k]) != key,
    decreases commands.len(),
{
    if commands.len() > 0 {
        lemma_place(commands.drop_last(), key);
        assert forall|k: int| place_of(commands, key) < k < commands.len() implies key_of(
            #[trigger] commands[k],
        ) != key by {
            if k < commands.len() - 1 {
                assert(commands.drop_last()[k] == commands[k]);
            }
        }
    }
}

/// The place of the first command with the key `key`, or -1.
pub open spec fn first_place_of(commands: Seq<JsonView>, key: Seq<char>) -> int
    decreases commands.len(),
{
    if commands.len() == 0 {
        -1
    } else if first_place_of(commands.drop_last(), key) >= 0 {
        first_place_of(commands.drop_last(), key)
    } else if key_of(commands.last()) == key {
        commands.len() - 1
    } else {
        -1
    }
}

/// The first place lies in the list, and there is one exactly for the keys that
/// occur.
proof fn lemma_first_place(commands: Seq<JsonView>, key: Seq<char>)
    ensures
        -1 <= first_place_of(commands, key) < commands.len(),
        first_place_of(commands, key) >= 0 <==> place_of(commands, key) >= 0,
        first_place_of(commands, key) >= 0 ==> key_of(commands[first_place_of(commands, key)])
            == key,
    decreases commands.len(),
{
    if commands.len() > 0 {
        lemma_first_place(commands.drop_last(), key);
        lemma_place(commands.drop_last(), key);
    }
}

/// What merging keeps to, shown command by command.
proof fn lemma_merged(commands: Seq<JsonView>)
    ensures
        forall|a: int, b: int|
            #![trigger merged(commands)[a], merged(commands)[b]]
            0 <= a < b < merged(commands).len() ==> {
                &&& key_of(merged(commands)[a]) != key_of(merged(commands)[b])
                &&& first_place_of(commands, key_of(merged(commands)[a])) < first_place_of(
                    commands,
                    key_of(merged(commands)[b]),
                )
            },
        forall|j: int|
            0 <= j < merged(commands).len() ==> {
                let key = key_of(#[trigger] merged(commands)[j]);
                &&& 0 <= place_of(commands, key) < commands.len()
                &&& merged(commands)[j] == commands[place_of(commands, key)]
            },
        forall|i: int|
            0 <= i < commands.len() ==> place_of(merged(commands), key_of(#[trigger] commands[i]))
                >= 0,
    decreases commands.len(),
{
    if commands.len() > 0 {
        let start = commands.drop_last();
        let last = commands.last();
        let done = merged(start);
        let all = merged(commands);
        let place = place_of(done, key_of(last));
        lemma_merged(start);
        lemma_place(done, key_of(last));
        lemma_first_place(start, key_of(last));
        lemma_place(start, key_of(last));
        assert forall|j: int| 0 <= j < all.len() implies {
            let key = key_of(#[trigger] all[j]);
            &&& 0 <= place_of(commands, key) < commands.len()
            &&& all[j] == commands[place_of(commands, key)]
            &&& (j < done.len() ==> key == key_of(done[j]))
            &&& (j < done.len() ==> first_place_of(commands, key) == first_place_of(start, key))
        } by {
            if j < done.len() {
                let key = key_of(done[j]);
                lemma_first_place(start, key);
                lemma_place(start, key);
                if j != place {
                    assert(key != key_of(last)) by {
                        if key == key_of(last) {
                            if place < j {
                                assert(key_of(done[j]) != key_of(last));
                            } else {
                                assert(key_of(done[j]) != key_of(done[place]));
                            }
                        }
                    }
                    assert(all[j] == done[j]);
                    assert(commands[place_of(start, key)] == start[place_of(start, key)]);
                }
            }
        }
        assert forall|a: int, b: int|
            #![trigger all[a], all[b]]
            0 <= a < b < all.len() implies {
            &&& key_of(all[a]) != key_of(all[b])
            &&& first_place_of(commands, key_of(all[a])) < first_place_of(
                commands,
                key_of(all[b]),
            )
        } by {
            if b < done.len() {
                assert(key_of(done[a]) != key_of(done[b]));
            } else {
                // The last command stands for a new key.
                lemma_first_place(start, key_of(done[a]));
                lemma_first_place(commands, key_of(last));
                assert(place == -1);
                assert(key_of(done[a]) != key_of(last));
                if first_place_of(start, key_of(last)) >= 0 {
                    let i = first_place_of(start, key_of(last));
                    assert(place_of(done, key_of(start[i])) >= 0);
                }
            }
        }
        assert forall|i: int| 0 <= i < commands.len() implies place_of(
            all,
            key_of(#[trigger] commands[i]),
        ) >= 0 by {
            let key = key_of(commands[i]);
            lemma_place(all, key);
            if key == key_of(last) {
                let at = if place >= 0 {
                    place
                } else {
                    all.len() - 1
                };
                assert(key_of(all[at]) == key);
            } else {
                assert(commands[i] == start[i]);
                lemma_place(done, key);
                let at = place_of(done, key);
                assert(all[at] == done[at]);
                assert(key_of(all[at]) == key);
            }
        }
    }
}

/// Merging leaves no two commands with the same key.
pub proof fn law_merge_leaves_no_repetition(commands: Seq<JsonView>, a: int, b: int)
    requires
        0 <= a < b < merged(commands).len(),
    ensures
        key_of(merged(commands)[a]) != key_of(merged(commands)[b]),
{
    lemma_merged(commands);
}

/// Merging loses no key: of each command the merged list holds the one that
/// came last among those with its key.
pub proof fn law_merge_loses_no_command(commands: Seq<JsonView>, i: int)
    requires
        0 <= i < commands.len(),
    ensures
        merged(commands).contains(commands[place_of(commands, key_of(commands[i]))]),
{
    let key = key_of(commands[i]);
    lemma_merged(commands);
    lemma_place(merged(commands), key);
    let at = place_of(merged(commands), key);
    assert(place_of(merged(commands), key_of(commands[i])) >= 0);
    assert(key_of(merged(commands)[at]) == key);
}

/// Merging invents no command: each command of the merged list is the one that
/// came last among those with its key.
pub proof fn law_merge_keeps_the_last_form(commands: Seq<JsonView>, j: int)
    requires
        0 <= j < merged(commands).len(),
    ensures
        0 <= place_of(commands, key_of(merged(commands)[j])) < commands.len(),
        merged(commands)[j] == commands[place_of(commands, key_of(merged(commands)[j]))],
{
    lemma_merged(commands);
}

/// Merging keeps the order in which the keys came first.
pub proof fn law_merge_keeps_the_first_order(commands: Seq<JsonView>, a: int, b: int)
    requires
        0 <= a < b < merged(commands).len(),
    ensures
        0 <= first_place_of(commands, key_of(merged(commands)[a])) < first_place_of(
            commands,
            key_of(merged(commands)[b]),
        ) < commands.len(),
{
    lemma_merged(commands);
    lemma_first_place(commands, key_of(merged(commands)[a]));
    lemma_first_place(commands, key_of(merged(commands)[b]));
    assert(place_of(commands, key_of(merged(commands)[a])) >= 0);
}

/// Where no key comes twice, merging changes nothing.
pub proof fn law_merge_keeps_distinct_commands(commands: Seq<JsonView>)
    requires
        forall|a: int, b: int|
            0 <= a < b < commands.len() ==> key_of(#[trigger] commands[a]) != key_of(
                #[trigger] commands[b],
            ),
    ensures
        merged(commands) == commands,
    decreases commands.len(),
{
    if commands.len() > 0 {
        let start = commands.drop_last();
        assert forall|a: int, b: int| 0 <= a < b < start.len() implies key_of(#[trigger] start[a])
            != key_of(#[trigger] start[b]) by {
            assert(key_of(commands[a]) != key_of(commands[b]));
        }
        law_merge_keeps_distinct_commands(start);
        lemma_place(start, key_of(commands.last()));
        let place = place_of(start, key_of(commands.last()));
        if place >= 0 {
            assert(key_of(commands[place]) != key_of(commands[commands.len() - 1]));
        }
        assert(start.push(commands.last()) =~= commands);
    } else {
        assert(merged(commands) =~= commands);
    }
}

/// What was merged once stays as it is.
pub proof fn law_merge_is_idempotent(commands: Seq<JsonView>)
    ensures
        merged(merged(commands)) == merged(commands),
{
    lemma_merged(commands);
    law_merge_keeps_distinct_commands(merged(commands));
}

/// The place of a key.
fn find_key(
    keys: &Vec<String>,
    key: &String,
    Ghost(commands): Ghost<Seq<JsonView>>,
) -> (place: Option<usize>)
    requires
        keys@.len() == commands.len(),
        forall|k: int| 0 <= k < keys@.len() ==> (#[trigger] keys@[k])@ == key_of(commands[k]),
    ensures
        match place {
            Some(i) => place_of(commands, key@) == i,
            None => place_of(commands, key@) == -1,
        },
{
    proof {
        lemma_place(commands, key@);
    }
    let mut i: usize = keys.len();
    while i > 0
        invariant
            i <= keys@.len(),
            keys@.len() == commands.len(),
            place_of(commands, key@) < i,
            place_of(commands, key@) >= 0 ==> key_of(commands[place_of(commands, key@)]) == key@,
            forall|k: int|
                place_of(commands, key@) < k < commands.len() ==> key_of(#[trigger] commands[k])
                    != key@,
            -1 <= place_of(commands, key@),
            forall|k: int| 0 <= k < keys@.len() ==> (#[trigger] keys@[k])@ == key_of(commands[k]),
        decreases i,
    {
        i -= 1;
        if keys[i] == *key {
            assert(key_of(commands[i as int]) == key@);
            return Some(i);
        }
        assert(keys@[i as int]@ == key_of(commands[i as int]));
    }
    None
}

/// Merges the commands `more` into the list `done` with its keys.
fn merge_into(
    done: &mut Vec<Json>,
    keys: &mut Vec<String>,
    more: Vec<Json>,
    Ghost(seen): Ghost<Seq<JsonView>>,
)
    requires
        array_view(old(done)@) == merged(seen),
        old(keys)@.len() == old(done)@.len(),
        forall|k: int|
            0 <= k < old(keys)@.len() ==> (#[trigger] old(keys)@[k])@ == key_of(merged(seen)[k]),
    ensures
        array_view(final(done)@) == merged(seen + array_view(more@)),
        final(keys)@.len() == final(done)@.len(),
        forall|k: int|
            0 <= k < final(keys)@.len() ==> (#[trigger] final(keys)@[k])@ == key_of(
                merged(seen + array_view(more@))[k],
            ),
{
    let ghost views = array_view(more@);
    let ghost all = more@;
    assert(seen + views.take(0) =~= seen);
    for command in it: more
        invariant
            it.seq() == all,
            views == array_view(all),
            array_view(done@) == merged(seen + views.take(it.index() as int)),
            keys@.len() == done@.len(),
            forall|k: int|
                0 <= k < keys@.len() ==> (#[trigger] keys@[k])@ == key_of(
                    merged(seen + views.take(it.index() as int))[k],
                ),
    {
        let ghost i = it.index() as int;
        let ghost before = seen + views.take(i);
        let ghost after = seen + views.take(i + 1);
        proof {
            assert(views[i] == command@);
            assert(after.drop_last() =~= before);
            assert(after.last() == command@);
            lemma_place(merged(before), key_of(command@));
        }
        let ghost list = done@;
        let key = command_key(&command);
        match find_key(keys, &key, Ghost(merged(before))) {
            Some(place) => {
                done.set(place, command);
                assert(array_view(done@) =~= array_view(list).update(place as int, command@));
                assert(merged(after) == merged(before).update(place as int, command@));
            },
            None => {
                done.push(command);
                keys.push(key);
                assert(array_view(done@) =~= array_view(list).push(command@));
                assert(merged(after) == merged(before).push(command@));
            },
        }
    }
    assert(views.take(views.len() as int) =~= views);
}

/// The commands that were pushed, then those that a sync brought, without
/// repetitions.
pub fn merge_commands(local: Vec<Json>, remote: Vec<Json>) -> (commands: Vec<Json>)
    ensures
        array_view(commands@) == merged(array_view(local@) + array_view(remote@)),
        is_merge_of(array_view(commands@), array_view(local@) + array_view(remote@)),
{
    proof {
        law_merged_is_a_merge(array_view(local@) + array_view(remote@));
    }
    let mut done: Vec<Json> = Vec::new();
    let mut keys: Vec<String> = Vec::new();
    let ghost none: Seq<JsonView> = Seq::empty();
    assert(array_view(done@) =~= merged(none));
    assert(none + array_view(local@) =~= array_view(local@));
    let ghost first = array_view(local@);
    merge_into(&mut done, &mut keys, local, Ghost(none));
    merge_into(&mut done, &mut keys, remote, Ghost(first));
    done
}

/// The commands that a response carries.
pub open spec fn commands_of(response: JsonView) -> Seq<JsonView> {
    match response.field("commands"@) {
        Some(value) => match value.as_items() {
            Some(items) => items,
            None => Seq::empty(),
        },
        None => Seq::empty(),
    }
}

/// A response with the commands `local` merged into those that it carries. A
/// response that is no object stays as it is.
pub open spec fn merged_response(response: JsonView, local: Seq<JsonView>) -> JsonView {
    response.with_field("commands"@, JsonView::Array(merged(local + commands_of(response))))
}

/// The response with the pushed commands `local` merged into those that it
/// carries.
pub fn merge_response(response: Json, local: Vec<Json>) -> (answer: Json)
    ensures
        answer@ == merged_response(response@, array_view(local@)),
        answers_with(answer@, response@, array_view(local@)),
{
    proof {
        law_response_goes_back_with_the_commands(response@, array_view(local@));
    }
    let mut answer = response;
    let remote = match answer.replace("commands", Json::Null) {
        Some(value) => match value.into_items() {
            Some(items) => items,
            None => Vec::new(),
        },
        None => Vec::new(),
    };
    assert(array_view(remote@) =~= commands_of(response@));
    let commands = merge_commands(local, remote);
    answer.set("commands", Json::Array(commands));
    proof {
        if let JsonView::Object(fields) = response@ {
            let list = JsonView::Array(array_view(commands@));
            assert(fields.insert("commands"@, JsonView::Null).insert("commands"@, list)
                =~= fields.insert("commands"@, list));
        }
    }
    answer
}

// ---------------------------------------------------------------------------
// Pushed commands.
// ---------------------------------------------------------------------------

/// The pushed commands that wait for the next sync of their shard.
pub struct PushBuffer {
    queues: Vec<(String, Vec<Json>)>,
}

impl PushBuffer {
    /// No shard has two queues.
    pub closed spec fn wf(&self) -> bool {
        forall|i: int, j: int|
            0 <= i < j < self.queues@.len() ==> self.queues@[i].0@ != self.queues@[j].0@
    }

    /// The shard has its queue at place `i`.
    spec fn at(&self, shard: Seq<char>, i: int) -> bool {
        0 <= i < self.queues@.len() && self.queues@[i].0@ == shard
    }

    /// The waiting commands of each shard that has some.
    pub closed spec fn view(&self) -> Map<Seq<char>, Seq<JsonView>> {
        Map::new(
            |shard: Seq<char>| exists|i: int| self.at(shard, i),
            |shard: Seq<char>| array_view(self.queues@[choose|i: int| self.at(shard, i)].1@),
        )
    }

    /// What stands at a place is what the view shows.
    proof fn lemma_at(&self, i: int)
        requires
            self.wf(),
            0 <= i < self.queues@.len(),
        ensures
            self@.contains_key(self.queues@[i].0@),
            self@[self.queues@[i].0@] == array_view(self.queues@[i].1@),
    {
        let shard = self.queues@[i].0@;
        assert(self.at(shard, i));
        let j = choose|j: int| self.at(shard, j);
        assert(i == j);
    }

    /// The view is the map that agrees with each queue and names no other
    /// shard.
    proof fn lemma_shows(&self, expected: Map<Seq<char>, Seq<JsonView>>)
        requires
            self.wf(),
            forall|i: int|
                0 <= i < self.queues@.len() ==> {
                    &&& expected.contains_key((#[trigger] self.queues@[i]).0@)
                    &&& expected[self.queues@[i].0@] == array_view(self.queues@[i].1@)
                },
            forall|name: Seq<char>|
                expected.contains_key(name) ==> exists|i: int| self.at(name, i),
        ensures
            self@ == expected,
    {
        assert forall|name: Seq<char>| self@.contains_key(name) == expected.contains_key(name)
            && (expected.contains_key(name) ==> self@[name] == expected[name]) by {
            if exists|i: int| self.at(name, i) {
                let i = choose|i: int| self.at(name, i);
                self.lemma_at(i);
            }
        }
        assert(self@ =~= expected);
    }

    /// A buffer in which nothing waits.
    pub fn new() -> (buffer: PushBuffer)
        ensures
            buffer.wf(),
            buffer@ == Map::<Seq<char>, Seq<JsonView>>::empty(),
    {
        let buffer = PushBuffer { queues: Vec::new() };
        assert(buffer@ =~= Map::<Seq<char>, Seq<JsonView>>::empty());
        buffer
    }

    /// The place of the queue of a shard.
    fn find(&self, shard: &str) -> (place: Option<usize>)
        requires
            self.wf(),
        ensures
            match place {
                Some(i) => self.at(shard@, i as int),
                None => forall|i: int| !self.at(shard@, i),
            },
    {
        let mut i: usize = 0;
        while i < self.queues.len()
            invariant
                i <= self.queues@.len(),
                forall|k: int| 0 <= k < i ==> !self.at(shard@, k),
            decreases self.queues@.len() - i,
        {
            if *self.queues[i].0.as_str() == *shard {
                return Some(i);
            }
            i += 1;
        }
        None
    }

    /// Lets a command wait for the next sync of a shard, behind those that wait
    /// already.
    pub fn push(&mut self, shard: &str, command: Json)
        requires
            old(self).wf(),
        ensures
            final(self).wf(),
            final(self)@ == old(self)@.insert(
                shard@,
                queue_of(old(self)@, shard@).push(command@),
            ),
    {
        let ghost before = *self;
        match self.find(shard) {
            Some(i) => {
                proof {
                    before.lemma_at(i as int);
                }
                let ghost waiting = self.queues@[i as int].1@;
                self.queues[i].1.push(command);
                assert(array_view(self.queues@[i as int].1@) =~= array_view(waiting).push(command@));
                assert(self.queues@ =~= before.queues@.update(i as int, self.queues@[i as int]));
            },
            None => {
                let mut list: Vec<Json> = Vec::new();
                list.push(command);
                assert(array_view(list@) =~= Seq::<JsonView>::empty().push(command@));
                assert(!before@.contains_key(shard@));
                self.queues.push((shard.to_owned(), list));
                assert forall|i: int, j: int| 0 <= i < j < self.queues@.len() implies
                    self.queues@[i].0@ != self.queues@[j].0@ by {
                    assert(!before.at(shard@, i));
                }
            },
        }
        proof {
            let expected = before@.insert(shard@, queue_of(before@, shard@).push(command@));
            assert forall|i: int| 0 <= i < self.queues@.len() implies {
                &&& expected.contains_key((#[trigger] self.queues@[i]).0@)
                &&& expected[self.queues@[i].0@] == array_view(self.queues@[i].1@)
            } by {
                if i < before.queues@.len() {
                    before.lemma_at(i);
                }
            }
            assert forall|name: Seq<char>| expected.contains_key(name) implies exists|i: int|
                self.at(name, i) by {
                if before@.contains_key(name) {
                    let i = choose|i: int| before.at(name, i);
                    assert(self.at(name, i));
                } else {
                    assert(self.at(name, self.queues@.len() - 1));
                }
            }
            self.lemma_shows(expected);
        }
    }

    /// Takes the waiting commands of a shard.
    pub fn drain(&mut self, shard: &str) -> (commands: Vec<Json>)
        requires
            old(self).wf(),
        ensures
            final(self).wf(),
            array_view(commands@) == queue_of(old(self)@, shard@),
            final(self)@ == old(self)@.remove(shard@),
    {
        let ghost before = *self;
        match self.find(shard) {
            Some(i) => {
                proof {
                    before.lemma_at(i as int);
                }
                let (_, list) = self.queues.remove(i);
                proof {
                    let expected = before@.remove(shard@);
                    assert forall|k: int| 0 <= k < self.queues@.len() implies {
                        &&& expected.contains_key((#[trigger] self.queues@[k]).0@)
                        &&& expected[self.queues@[k].0@] == array_view(self.queues@[k].1@)
                    } by {
                        before.lemma_at(if k < i { k } else { k + 1 });
                    }
                    assert forall|name: Seq<char>| expected.contains_key(name) implies exists|
                        k: int,
                    | self.at(name, k) by {
                        let k = choose|k: int| before.at(name, k);
                        assert(self.at(name, if k < i { k } else { k - 1 }));
                    }
                    self.lemma_shows(expected);
                }
                list
            },
            None => {
                assert(!before@.contains_key(shard@));
                assert(self@.remove(shard@) =~= self@);
                Vec::new()
            },
        }
    }
}

/// The commands that wait for a shard.
pub open spec fn queue_of(buffer: Map<Seq<char>, Seq<JsonView>>, shard: Seq<char>) -> Seq<JsonView> {
    if buffer.contains_key(shard) {
        buffer[shard]
    } else {
        Seq::empty()
    }
}

/// What is taken for a shard is what was pushed for it, in that order, and it is
/// taken once; the commands of other shards stay.
pub proof fn law_drain_takes_what_was_pushed(
    buffer: Map<Seq<char>, Seq<JsonView>>,
    shard: Seq<char>,
    first: JsonView,
    second: JsonView,
    other: Seq<char>,
)
    requires
        other != shard,
    ensures
        ({
            let once = buffer.insert(shard, queue_of(buffer, shard).push(first));
            let twice = once.insert(shard, queue_of(once, shard).push(second));
            &&& queue_of(twice, shard) == queue_of(buffer, shard) + seq![first, second]
            &&& queue_of(twice.remove(shard), shard) == Seq::<JsonView>::empty()
            &&& queue_of(twice.remove(shard), other) == queue_of(buffer, other)
        }),
{
    let queue = queue_of(buffer, shard);
    assert(queue.push(first).push(second) =~= queue + seq![first, second]);
}

/// An answer that is an object carries the merged commands, and its other fields
/// are those of the response; any other answer is the response.
pub proof fn law_answer_differs_only_in_its_commands(
    response: JsonView,
    local: Seq<JsonView>,
    name: Seq<char>,
)
    requires
        name != "commands"@,
    ensures
        merged_response(response, local).field(name) == response.field(name),
        response is Object ==> commands_of(merged_response(response, local)) == merged(
            local + commands_of(response),
        ),
        !(response is Object) ==> merged_response(response, local) == response,
{
}

/// No pushed command is lost: of each one the answer, if it is an object, holds
/// a command with the same key.
pub proof fn law_answer_holds_each_pushed_command(
    response: JsonView,
    local: Seq<JsonView>,
    i: int,
)
    requires
        response is Object,
        0 <= i < local.len(),
    ensures
        place_of(commands_of(merged_response(response, local)), key_of(local[i])) >= 0,
{
    let all = local + commands_of(response);
    assert(all[i] == local[i]);
    lemma_merged(all);
    assert(place_of(merged(all), key_of(all[i])) >= 0);
}

// ---------------------------------------------------------------------------
// What the game is given.
// ---------------------------------------------------------------------------

/// Commands that agree in type, time and data have the same key, whatever else
/// they hold.
pub proof fn law_same_fields_give_the_same_key(a: JsonView, b: JsonView)
    requires
        a.field("type"@) == b.field("type"@),
        a.field("queued_at"@) == b.field("queued_at"@),
        a.field("data"@) == b.field("data"@),
    ensures
        key_of(a) == key_of(b),
{
}

/// Commands of different types have different keys, whatever else they hold, as
/// long as the types hold no bar.
pub proof fn law_different_types_give_different_keys(
    a: JsonView,
    b: JsonView,
    type_a: Seq<char>,
    type_b: Seq<char>,
)
    requires
        a.field("type"@) == Some(JsonView::Text(type_a)),
        b.field("type"@) == Some(JsonView::Text(type_b)),
        !type_a.contains('|'),
        !type_b.contains('|'),
        type_a != type_b,
    ensures
        key_of(a) != key_of(b),
{
    reveal_strlit("|");
    let bar = seq!['|'];
    assert("|"@ =~= bar);
    let rest_a = queued_text(a) + bar + data_text(a);
    let rest_b = queued_text(b) + bar + data_text(b);
    assert(key_of(a) =~= type_a + bar + rest_a);
    assert(key_of(b) =~= type_b + bar + rest_b);
    if key_of(a) == key_of(b) {
        lemma_first_bar(type_a, rest_a, type_b, rest_b);
    }
}

/// Commands of one type that were queued at different times have different keys,
/// whatever else they hold: times are whole numbers, or texts without a bar.
pub proof fn law_different_times_give_different_keys(
    a: JsonView,
    b: JsonView,
    n: u64,
    m: u64,
    time_a: Seq<char>,
    time_b: Seq<char>,
)
    requires
        a.field("type"@) == b.field("type"@),
        ({
            ||| {
                &&& a.field("queued_at"@) == Some(JsonView::Number(NumberView::Unsigned(n)))
                &&& b.field("queued_at"@) == Some(JsonView::Number(NumberView::Unsigned(m)))
                &&& n != m
            }
            ||| {
                &&& a.field("queued_at"@) == Some(JsonView::Text(time_a))
                &&& b.field("queued_at"@) == Some(JsonView::Text(time_b))
                &&& !time_a.contains('|')
                &&& !time_b.contains('|')
                &&& time_a != time_b
            }
        }),
    ensures
        key_of(a) != key_of(b),
{
    reveal_strlit("|");
    let bar = seq!['|'];
    assert("|"@ =~= bar);
    let start = type_text(a) + bar;
    let rest_a = queued_text(a) + bar + data_text(a);
    let rest_b = queued_text(b) + bar + data_text(b);
    assert(key_of(a) =~= start + rest_a);
    assert(key_of(b) =~= start + rest_b);
    if key_of(a) == key_of(b) {
        assert(rest_a =~= key_of(a).skip(start.len() as int));
        assert(rest_b =~= key_of(b).skip(start.len() as int));
        if a.field("queued_at"@) == Some(JsonView::Number(NumberView::Unsigned(n))) {
            lemma_queued_number(a);
            lemma_queued_number(b);
            lemma_first_bar(queued_text(a), data_text(a), queued_text(b), data_text(b));
            law_signed_decimal_is_unambiguous(n as int, m as int);
        } else {
            lemma_first_bar(time_a, data_text(a), time_b, data_text(b));
        }
    }
}

/// Commands of one type and time whose data is written differently have different
/// keys.
pub proof fn law_different_data_gives_different_keys(
    a: JsonView,
    b: JsonView,
    data_a: JsonView,
    data_b: JsonView,
)
    requires
        a.field("type"@) == b.field("type"@),
        a.field("queued_at"@) == b.field("queued_at"@),
        a.field("data"@) == Some(data_a),
        b.field("data"@) == Some(data_b),
        json_text(data_a) != json_text(data_b),
    ensures
        key_of(a) != key_of(b),
{
    let start = type_text(a) + "|"@ + queued_text(a) + "|"@;
    assert(key_of(a) =~= start + json_text(data_a));
    assert(key_of(b) =~= start + json_text(data_b));
    if key_of(a) == key_of(b) {
        assert(json_text(data_a) =~= key_of(a).skip(start.len() as int));
        assert(json_text(data_b) =~= key_of(b).skip(start.len() as int));
    }
}

/// What a command leaves out counts as empty: no data as an empty object, no time
/// as the empty text, and no type, or one that is no text, as the empty text. A
/// time counts by its digits, in a number or in a text.
pub proof fn law_what_is_left_out_is_empty(
    fields: Map<Seq<char>, JsonView>,
    other: JsonView,
    n: u64,
)
    requires
        !(other is Text),
    ensures
        ({
            let command = JsonView::Object(fields);
            let none = JsonView::Text(Seq::empty());
            &&& key_of(JsonView::Object(fields.remove("data"@))) == key_of(
                command.with_field("data"@, JsonView::Object(Map::empty())),
            )
            &&& key_of(JsonView::Object(fields.remove("queued_at"@))) == key_of(
                command.with_field("queued_at"@, none),
            )
            &&& key_of(command.with_field("queued_at"@, JsonView::Null)) == key_of(
                command.with_field("queued_at"@, none),
            )
            &&& key_of(JsonView::Object(fields.remove("type"@))) == key_of(
                command.with_field("type"@, none),
            )
            &&& key_of(command.with_field("type"@, other)) == key_of(
                command.with_field("type"@, none),
            )
            &&& key_of(
                command.with_field("queued_at"@, JsonView::Number(NumberView::Unsigned(n))),
            ) == key_of(
                command.with_field("queued_at"@, JsonView::Text(decimal(n as nat))),
            )
        }),
{
    reveal_strlit("type");
    reveal_strlit("queued_at");
    reveal_strlit("data");
    assert("type"@.len() == 4 && "queued_at"@.len() == 9 && "data"@.len() == 4);
    assert("type"@[0] != "data"@[0]);
    let command = JsonView::Object(fields);
    let numbered = command.with_field("queued_at"@, JsonView::Number(NumberView::Unsigned(n)));
    lemma_queued_number(numbered);
}

/// A list that comes of merging `all`: no two of its commands have the same key,
/// each key of `all` has one, each is the last one of its key in `all`, and they
/// stand in the order in which their keys come first in `all`.
#[verifier::opaque]
pub open spec fn is_merge_of(list: Seq<JsonView>, all: Seq<JsonView>) -> bool {
    &&& forall|a: int, b: int|
        #![trigger list[a], list[b]]
        0 <= a < b < list.len() ==> key_of(list[a]) != key_of(list[b])
    &&& forall|i: int|
        0 <= i < all.len() ==> exists|j: int|
            0 <= j < list.len() && key_of(#[trigger] list[j]) == key_of(#[trigger] all[i])
    &&& forall|j: int| 0 <= j < list.len() ==> is_last_of_its_key(all, #[trigger] list[j])
    &&& forall|a: int, b: int|
        #![trigger list[a], list[b]]
        0 <= a < b < list.len() ==> comes_before(all, list[a], list[b])
}

/// The command is in the list, and no later one has its key.
pub open spec fn is_last_of_its_key(all: Seq<JsonView>, command: JsonView) -> bool {
    exists|k: int|
        {
            &&& 0 <= k < all.len()
            &&& #[trigger] all[k] == command
            &&& forall|m: int| k < m < all.len() ==> key_of(#[trigger] all[m]) != key_of(command)
        }
}

/// The key of one command comes in the list before that of the other.
pub open spec fn comes_before(all: Seq<JsonView>, one: JsonView, other: JsonView) -> bool {
    exists|k: int|
        {
            &&& 0 <= k < all.len()
            &&& key_of(#[trigger] all[k]) == key_of(one)
            &&& forall|m: int| 0 <= m <= k ==> key_of(#[trigger] all[m]) != key_of(other)
        }
}

/// No command before the first place of a key has it.
proof fn lemma_none_before_first(commands: Seq<JsonView>, key: Seq<char>, m: int)
    requires
        0 <= m < commands.len(),
        first_place_of(commands, key) == -1 || m < first_place_of(commands, key),
    ensures
        key_of(commands[m]) != key,
    decreases commands.len(),
{
    lemma_first_place(commands.drop_last(), key);
    if m < commands.len() - 1 {
        lemma_none_before_first(commands.drop_last(), key, m);
    }
}

/// Merging gives what it is to give.
pub proof fn law_merged_is_a_merge(all: Seq<JsonView>)
    ensures
        is_merge_of(merged(all), all),
{
    reveal(is_merge_of);
    let list = merged(all);
    lemma_merged(all);
    assert forall|i: int| 0 <= i < all.len() implies exists|j: int|
        0 <= j < list.len() && key_of(#[trigger] list[j]) == key_of(#[trigger] all[i]) by {
        lemma_place(list, key_of(all[i]));
        assert(place_of(list, key_of(all[i])) >= 0);
        let j = place_of(list, key_of(all[i]));
        assert(key_of(list[j]) == key_of(all[i]));
    }
    assert forall|j: int| 0 <= j < list.len() implies is_last_of_its_key(
        all,
        #[trigger] list[j],
    ) by {
        let key = key_of(list[j]);
        lemma_place(all, key);
        let k = place_of(all, key);
        assert(all[k] == list[j]);
    }
    assert forall|a: int, b: int|
        #![trigger list[a], list[b]]
        0 <= a < b < list.len() implies comes_before(all, list[a], list[b]) by {
        let key = key_of(list[b]);
        law_merge_keeps_the_first_order(all, a, b);
        lemma_first_place(all, key_of(list[a]));
        let k = first_place_of(all, key_of(list[a]));
        assert(key_of(all[k]) == key_of(list[a]));
        assert forall|m: int| 0 <= m <= k implies key_of(#[trigger] all[m]) != key by {
            lemma_none_before_first(all, key, m);
        }
    }
}

/// The answer to a sync: where the response is an object, an object that holds
/// the pushed commands `local` merged with those of the response, and whose other
/// fields are those of the response; otherwise the response.
pub open spec fn answers_with(answer: JsonView, response: JsonView, local: Seq<JsonView>) -> bool {
    match response {
        JsonView::Object(fields) => {
            &&& answer matches JsonView::Object(given)
            &&& given.contains_key("commands"@)
            &&& given["commands"@] matches JsonView::Array(list)
            &&& is_merge_of(
                list,
                if fields.contains_key("commands"@) && fields["commands"@] is Array {
                    local + fields["commands"@]->Array_0
                } else {
                    local
                },
            )
            &&& forall|name: Seq<char>| #![trigger given.contains_key(name)]
                name != "commands"@ ==> {
                    &&& given.contains_key(name) == fields.contains_key(name)
                    &&& fields.contains_key(name) ==> given[name] == fields[name]
                }
        },
        _ => answer == response,
    }
}

/// A response goes back with the pushed commands, each of them, and otherwise as
/// it came.
pub proof fn law_response_goes_back_with_the_commands(response: JsonView, local: Seq<JsonView>)
    ensures
        answers_with(merged_response(response, local), response, local),
{
    law_merged_is_a_merge(local + commands_of(response));
    assert(local + Seq::<JsonView>::empty() =~= local);
}

/// A time that is neither a text nor null counts by its JSON text, as a text would
/// that reads the same.
pub proof fn law_other_times_count_by_their_text(
    fields: Map<Seq<char>, JsonView>,
    value: JsonView,
)
    requires
        !(value is Text),
        !(value is Null),
        json_text(value).len() > 0,
        json_text(value).first() != '"',
        json_text(value).last() != '"',
    ensures
        ({
            let command = JsonView::Object(fields);
            key_of(command.with_field("queued_at"@, value)) == key_of(
                command.with_field("queued_at"@, JsonView::Text(json_text(value))),
            )
        }),
{
    reveal_strlit("type");
    reveal_strlit("queued_at");
    reveal_strlit("data");
    assert("type"@.len() == 4 && "queued_at"@.len() == 9 && "data"@.len() == 4);
    let text = json_text(value);
    let none = Seq::new(0, |i: int| '"');
    law_trimmed_is_what_stands_inside(0, text, 0, '"');
    assert(none + text + none =~= text);
}

} // verus!
