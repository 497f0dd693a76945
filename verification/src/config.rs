//! Where the relay gets its settings from.
//!
//! Environment variables come first, then the config file, then the built-in
//! values.
use crate::json::{json_parse, Json, JsonView, NumberView};
use crate::text::{chars_of, decimal, digit_char, lemma_decimal_digits, text_view};
use vstd::prelude::*;

verus! {

/// The backend that the relay forwards to unless told otherwise.
pub const BAKED_UPSTREAM: &'static str = "https://local.marcosbrendon.com";

/// The local port that the relay listens on unless told otherwise. It lies in
/// a range that no common development service uses.
pub const BAKED_PORT: u16 = 47834;

/// The settings of a relay.
#[derive(Clone, Debug)]
pub struct Config {
    /// The URL of the backend.
    pub upstream: String,
    /// The local port to listen on.
    pub port: u16,
    /// The shared secret sent along with each forwarded request.
    pub token: Option<String>,
}

/// What a `Config` holds.
#[verifier::ext_equal]
pub struct ConfigView {
    pub upstream: Seq<char>,
    pub port: u16,
    pub token: Option<Seq<char>>,
}

impl Config {
    pub open spec fn view(&self) -> ConfigView {
        ConfigView { upstream: self.upstream@, port: self.port, token: text_view(self.token) }
    }
}

/// The environment variables that the relay reads, each as it is set.
#[derive(Debug)]
pub struct Environment {
    /// `DSTP_UPSTREAM`.
    pub upstream: Option<String>,
    /// `DSTP_PORT`.
    pub port: Option<String>,
    /// `DSTP_TOKEN`.
    pub token: Option<String>,
    /// `DSTP_VERBOSE`.
    pub verbose: Option<String>,
    /// `DSTP_USE_WS`.
    pub use_ws: Option<String>,
}

/// What an `Environment` holds.
#[verifier::ext_equal]
pub struct EnvironmentView {
    pub upstream: Option<Seq<char>>,
    pub port: Option<Seq<char>>,
    pub token: Option<Seq<char>>,
    pub verbose: Option<Seq<char>>,
    pub use_ws: Option<Seq<char>>,
}

impl Environment {
    pub open spec fn view(&self) -> EnvironmentView {
        EnvironmentView {
            upstream: text_view(self.upstream),
            port: text_view(self.port),
            token: text_view(self.token),
            verbose: text_view(self.verbose),
            use_ws: text_view(self.use_ws),
        }
    }

    /// Each step is logged when `DSTP_VERBOSE` is `1`.
    pub fn is_verbose(&self) -> (verbose: bool)
        ensures
            verbose == (self@.verbose == Some("1"@)),
    {
        match &self.verbose {
            Some(text) => *text.as_str() == *"1",
            None => false,
        }
    }

    /// The tunnel is used unless `DSTP_USE_WS` is `0`.
    pub fn uses_ws(&self) -> (use_ws: bool)
        ensures
            use_ws == (self@.use_ws != Some("0"@)),
    {
        match &self.use_ws {
            Some(text) => !(*text.as_str() == *"0"),
            None => true,
        }
    }
}

/// The characters from `0` to `9`.
pub open spec fn is_digit(c: char) -> bool {
    '0' <= c && c <= '9'
}

/// The number that a sequence of digits writes.
pub open spec fn digits_value(digits: Seq<char>) -> nat
    decreases digits.len(),
{
    if digits.len() == 0 {
        0
    } else {
        digits_value(digits.drop_last()) * 10 + (digits.last() as u8 - 48) as nat
    }
}

/// A text of digits and nothing else.
pub open spec fn all_digits(text: Seq<char>) -> bool {
    forall|i: int| 0 <= i < text.len() ==> is_digit(#[trigger] text[i])
}

/// A text without the plus sign that it may start with.
pub open spec fn without_plus(text: Seq<char>) -> Seq<char> {
    if text.len() > 0 && text[0] == '+' {
        text.skip(1)
    } else {
        text
    }
}

/// The number that a text writes as a `u16`: an optional plus sign and then
/// digits, at least one, and nothing else.
pub open spec fn u16_of(text: Seq<char>) -> Option<u16> {
    let digits = without_plus(text);
    if digits.len() > 0 && all_digits(digits) && digits_value(digits) <= 65535 {
        Some(digits_value(digits) as u16)
    } else {
        None
    }
}

/// The port that a text names: a `u16` other than zero.
pub open spec fn port_of(text: Seq<char>) -> Option<u16> {
    match u16_of(text) {
        Some(port) => if port > 0 {
            Some(port)
        } else {
            None
        },
        None => None,
    }
}

/// More digits never make a smaller number.
proof fn lemma_digits_grow(digits: Seq<char>, i: int)
    requires
        0 <= i <= digits.len(),
        all_digits(digits),
    ensures
        digits_value(digits.take(i)) <= digits_value(digits),
    decreases digits.len(),
{
    if i < digits.len() {
        assert(digits.drop_last().take(i) =~= digits.take(i));
        lemma_digits_grow(digits.drop_last(), i);
    } else {
        assert(digits.take(i) =~= digits);
    }
}

/// Reads a `u16` in decimal.
pub fn parse_u16(text: &str) -> (number: Option<u16>)
    ensures
        number == u16_of(text@),
{
    let chars = chars_of(text);
    let start: usize = if chars.len() > 0 && chars[0] == '+' { 1 } else { 0 };
    let ghost digits = without_plus(text@);
    assert(digits =~= text@.skip(start as int));
    if start == chars.len() {
        return None;
    }
    let mut value: u32 = 0;
    let mut i: usize = start;
    while i < chars.len()
        invariant
            chars@ == text@,
            start <= i <= chars@.len(),
            start < chars@.len(),
            digits == without_plus(text@),
            digits == text@.skip(start as int),
            forall|k: int| 0 <= k < i - start ==> is_digit(#[trigger] digits[k]),
            value == digits_value(digits.take(i - start)),
            value <= 65535,
        decreases chars@.len() - i,
    {
        let c = chars[i];
        assert(digits[i - start] == c);
        if c < '0' || c > '9' {
            assert(!is_digit(digits[i - start]));
            return None;
        }
        assert(digits.take(i - start + 1).drop_last() =~= digits.take(i - start));
        value = value * 10 + (c as u8 - 48) as u32;
        i += 1;
        if value > 65535 {
            proof {
                if all_digits(digits) {
                    lemma_digits_grow(digits, i - start);
                }
            }
            return None;
        }
    }
    assert(digits.take(i - start) =~= digits);
    Some(value as u16)
}

/// The backend URL that a config file sets.
pub open spec fn file_upstream(file: Option<JsonView>) -> Option<Seq<char>> {
    match file {
        Some(json) => match json.text_field("upstream"@) {
            Some(text) if text.len() > 0 => Some(text),
            _ => None,
        },
        None => None,
    }
}

/// The port that a config file sets.
pub open spec fn file_port(file: Option<JsonView>) -> Option<u16> {
    match file {
        Some(json) => match json.unsigned_field("port"@) {
            Some(n) if 0 < n && n < 65536 => Some(n as u16),
            _ => None,
        },
        None => None,
    }
}

/// The shared secret that a config file sets.
pub open spec fn file_token(file: Option<JsonView>) -> Option<Seq<char>> {
    match file {
        Some(json) => match json.text_field("token"@) {
            Some(text) if text.len() > 0 => Some(text),
            _ => None,
        },
        None => None,
    }
}

/// The port that the environment sets.
pub open spec fn env_port(env: EnvironmentView) -> Option<u16> {
    match env.port {
        Some(text) => port_of(text),
        None => None,
    }
}

/// The shared secret that the environment sets.
pub open spec fn env_token(env: EnvironmentView) -> Option<Seq<char>> {
    match env.token {
        Some(text) if text.len() > 0 => Some(text),
        _ => None,
    }
}

/// The first of two values that is set.
pub open spec fn first_set<T>(first: Option<T>, second: Option<T>) -> Option<T> {
    match first {
        Some(_) => first,
        None => second,
    }
}

/// The settings that an environment and a config file amount to: for each of
/// them what the environment sets, else what the file sets, else the built-in
/// value.
pub open spec fn settings(env: EnvironmentView, file: Option<JsonView>) -> ConfigView {
    ConfigView {
        upstream: match first_set(env.upstream, file_upstream(file)) {
            Some(text) => text,
            None => BAKED_UPSTREAM@,
        },
        port: match first_set(env_port(env), file_port(file)) {
            Some(port) => port,
            None => BAKED_PORT,
        },
        token: first_set(env_token(env), file_token(file)),
    }
}

/// The settings that an environment and a config file amount to.
pub fn resolve(env: &Environment, file: Option<&Json>) -> (config: Config)
    ensures
        config@ == settings(
            env@,
            match file {
                Some(json) => Some(json@),
                None => None,
            },
        ),
        env.upstream matches Some(text) ==> config.upstream@ == text@,
        env.upstream is None ==> (file matches Some(json) ==> (json@.field("upstream"@) matches Some(
            JsonView::Text(text),
        ) ==> (text.len() > 0 ==> config.upstream@ == text))),
        env.token matches Some(text) ==> (text@.len() > 0 ==> text_view(config.token) == Some(
            text@,
        )),
        env.token is None ==> (file matches Some(json) ==> (json@.field("token"@) matches Some(
            JsonView::Text(text),
        ) ==> (text.len() > 0 ==> text_view(config.token) == Some(text)))),
        env.port is None ==> (file matches Some(json) ==> (json@.field("port"@) matches Some(
            JsonView::Number(NumberView::Unsigned(n)),
        ) ==> (0 < n <= 65535 ==> config.port == n))),
{
    let mut upstream: Option<String> = None;
    let mut port: Option<u16> = None;
    let mut token: Option<String> = None;
    if let Some(json) = file {
        if let Some(text) = json.get_str("upstream") {
            if !text.is_empty() {
                upstream = Some(text.to_owned());
            }
        }
        if let Some(n) = json.get_u64("port") {
            if n > 0 && n < 65536 {
                port = Some(n as u16);
            }
        }
        if let Some(text) = json.get_str("token") {
            if !text.is_empty() {
                token = Some(text.to_owned());
            }
        }
    }
    if let Some(text) = &env.upstream {
        upstream = Some(text.clone());
    }
    if let Some(text) = &env.port {
        if let Some(n) = parse_u16(text.as_str()) {
            if n > 0 {
                port = Some(n);
            }
        }
    }
    if let Some(text) = &env.token {
        if !text.as_str().is_empty() {
            token = Some(text.clone());
        }
    }
    Config {
        upstream: match upstream {
            Some(text) => text,
            None => BAKED_UPSTREAM.to_owned(),
        },
        port: match port {
            Some(n) => n,
            None => BAKED_PORT,
        },
        token,
    }
}

/// What was read at a place where the config file is looked for: its JSON, or why
/// it cannot be used.
pub open spec fn file_at(read: Result<String, String>) -> Result<JsonView, Seq<char>> {
    match read {
        Ok(raw) => json_parse(raw@),
        Err(reason) => Err(reason@),
    }
}

/// Loads the settings with what was read at a place where the config file is
/// looked for, or the reason why nothing was read there. Where it is no JSON the
/// reason is given back, and the next place is to be looked at; without a next
/// one `resolve` gives the settings.
pub fn load_config(env: &Environment, read: Result<String, String>) -> (loaded: Result<
    Config,
    String,
>)
    ensures
        match loaded {
            Ok(config) => {
                &&& file_at(read) matches Ok(json)
                &&& config@ == settings(env@, Some(json))
            },
            Err(reason) => file_at(read) == Err::<JsonView, Seq<char>>(reason@),
        },
{
    match read {
        Ok(raw) => match Json::parse(raw.as_str()) {
            Ok(json) => Ok(resolve(env, Some(&json))),
            Err(reason) => Err(reason),
        },
        Err(reason) => Err(reason),
    }
}

/// The settings that are loaded from the places where the config file is looked
/// for, one after the other.
pub open spec fn loaded_from(
    env: EnvironmentView,
    places: Seq<Result<JsonView, Seq<char>>>,
) -> ConfigView
    decreases places.len(),
{
    if places.len() == 0 {
        settings(env, None)
    } else {
        match places[0] {
            Ok(json) => settings(env, Some(json)),
            Err(_) => loaded_from(env, places.drop_first()),
        }
    }
}

/// The first place that holds JSON is that of the config file, whatever the
/// later ones hold.
pub proof fn law_first_file_counts(
    env: EnvironmentView,
    places: Seq<Result<JsonView, Seq<char>>>,
    i: int,
)
    requires
        0 <= i < places.len(),
        places[i] is Ok,
        forall|k: int| 0 <= k < i ==> (#[trigger] places[k]) is Err,
    ensures
        loaded_from(env, places) == settings(env, Some(places[i]->Ok_0)),
    decreases places.len(),
{
    if i > 0 {
        let rest = places.drop_first();
        assert(places[0] is Err);
        assert forall|k: int| 0 <= k < i - 1 implies (#[trigger] rest[k]) is Err by {
            assert(places[k + 1] is Err);
        }
        law_first_file_counts(env, rest, i - 1);
    }
}

/// Where no place holds JSON there is no config file.
pub proof fn law_unusable_files_do_not_count(
    env: EnvironmentView,
    places: Seq<Result<JsonView, Seq<char>>>,
)
    requires
        forall|k: int| 0 <= k < places.len() ==> (#[trigger] places[k]) is Err,
    ensures
        loaded_from(env, places) == settings(env, None),
    decreases places.len(),
{
    if places.len() > 0 {
        let rest = places.drop_first();
        assert(places[0] is Err);
        assert forall|k: int| 0 <= k < rest.len() implies (#[trigger] rest[k]) is Err by {
            assert(places[k + 1] is Err);
        }
        law_unusable_files_do_not_count(env, rest);
    }
}

/// Environment variables override the config file: a setting that the
/// environment sets is the same whatever the file holds.
pub proof fn law_environment_overrides_file(
    env: EnvironmentView,
    file: Option<JsonView>,
    other: Option<JsonView>,
)
    ensures
        env.upstream matches Some(text) ==> settings(env, file).upstream == text,
        env_port(env) matches Some(port) ==> settings(env, file).port == port,
        env_token(env) matches Some(token) ==> settings(env, file).token == Some(token),
        env.upstream is Some && env_port(env) is Some && env_token(env) is Some ==> settings(
            env,
            file,
        ) == settings(env, other),
{
}

/// The config file overrides the built-in values, and the built-in values stand
/// where neither the environment nor the file sets anything.
pub proof fn law_file_overrides_baked(env: EnvironmentView, file: Option<JsonView>)
    requires
        env.upstream is None,
        env_port(env) is None,
        env_token(env) is None,
    ensures
        settings(env, file).upstream == (match file_upstream(file) {
            Some(text) => text,
            None => BAKED_UPSTREAM@,
        }),
        settings(env, file).port == (match file_port(file) {
            Some(port) => port,
            None => BAKED_PORT,
        }),
        settings(env, file).token == file_token(file),
        settings(env, None).upstream == BAKED_UPSTREAM@,
        settings(env, None).port == BAKED_PORT,
        settings(env, None).token == None::<Seq<char>>,
{
}

/// Fields of the config file whose name starts with `_` are ignored.
pub proof fn law_underscore_fields_ignored(
    env: EnvironmentView,
    file: JsonView,
    name: Seq<char>,
    value: JsonView,
)
    requires
        name.len() > 0,
        name[0] == '_',
    ensures
        settings(env, Some(file.with_field(name, value))) == settings(env, Some(file)),
{
    reveal_strlit("upstream");
    reveal_strlit("port");
    reveal_strlit("token");
    assert(name != "upstream"@ && name != "port"@ && name != "token"@);
    let more = file.with_field(name, value);
    assert(more.field("upstream"@) == file.field("upstream"@));
    assert(more.field("port"@) == file.field("port"@));
    assert(more.field("token"@) == file.field("token"@));
}

/// The port is never zero, and a shared secret is never empty.
pub proof fn law_settings_are_valid(env: EnvironmentView, file: Option<JsonView>)
    ensures
        settings(env, file).port > 0,
        settings(env, file).token matches Some(token) ==> token.len() > 0,
{
}

// ---------------------------------------------------------------------------
// What each setting comes from.
// ---------------------------------------------------------------------------

/// A run of zeros.
pub open spec fn zeros(count: nat) -> Seq<char> {
    Seq::new(count, |i: int| '0')
}

/// A way to write a number: with or without a plus sign, after any number of
/// zeros.
pub open spec fn port_text(plus: bool, count: nat, number: nat) -> Seq<char> {
    (if plus {
        seq!['+']
    } else {
        Seq::empty()
    }) + zeros(count) + decimal(number)
}

/// A number in decimal reads back as that number.
pub proof fn law_decimal_reads_back(n: nat)
    ensures
        all_digits(decimal(n)),
        digits_value(decimal(n)) == n,
        n > 0 ==> decimal(n)[0] != '0',
    decreases n,
{
    if n >= 10 {
        law_decimal_reads_back(n / 10);
        assert(decimal(n).drop_last() =~= decimal(n / 10));
        lemma_decimal_digits(n / 10);
        assert(decimal(n)[0] == decimal(n / 10)[0]);
    } else {
        assert(decimal(n).drop_last() =~= Seq::<char>::empty());
        assert(digits_value(Seq::<char>::empty()) == 0);
    }
    let digit = n % 10;
    assert(decimal(n).last() == digit_char(digit));
    assert((digit_char(digit) as u8 - 48) as nat == digit);
    lemma_decimal_digits(n);
}

/// Zeros in front make no difference.
proof fn lemma_zeros(count: nat, digits: Seq<char>)
    requires
        all_digits(digits),
    ensures
        all_digits(zeros(count) + digits),
        digits_value(zeros(count) + digits) == digits_value(digits),
    decreases digits.len(), count,
{
    let text = zeros(count) + digits;
    if digits.len() > 0 {
        assert(all_digits(digits.drop_last()));
        lemma_zeros(count, digits.drop_last());
        assert(text.drop_last() =~= zeros(count) + digits.drop_last());
        assert(text.last() == digits.last());
        assert(is_digit(digits[digits.len() - 1]));
    } else if count > 0 {
        lemma_zeros((count - 1) as nat, digits);
        assert(text.drop_last() =~= zeros((count - 1) as nat) + digits);
        assert(text.last() == '0');
    } else {
        assert(text =~= digits);
    }
    assert forall|i: int| 0 <= i < text.len() implies is_digit(#[trigger] text[i]) by {
        if i >= count {
            assert(text[i] == digits[i - count]);
        }
    }
}

/// Digits are zeros followed by the number that they write.
proof fn lemma_digits_are_decimal(digits: Seq<char>)
    requires
        digits.len() > 0,
        all_digits(digits),
    ensures
        exists|count: nat| digits == zeros(count) + #[trigger] decimal(digits_value(digits))
            && count < digits.len() && zeros(count).len() == count,
    decreases digits.len(),
{
    let start = digits.drop_last();
    let last = digits.last();
    let digit = (last as u8 - 48) as nat;
    assert(is_digit(digits[digits.len() - 1]));
    assert(digit_char(digit) == last);
    let value = digits_value(digits);
    assert(digits =~= start.push(last));
    assert(digits_value(Seq::<char>::empty()) == 0);
    if start.len() == 0 {
        assert(start =~= Seq::<char>::empty());
        assert(value == digit);
        assert(digits =~= zeros(0) + decimal(value));
        assert(zeros(0).len() == 0);
    } else {
        assert(all_digits(start));
        lemma_digits_are_decimal(start);
        let before = digits_value(start);
        let count = choose|count: nat|
            start == zeros(count) + #[trigger] decimal(before) && count < start.len()
                && zeros(count).len() == count;
        if before == 0 {
            assert(decimal(before) =~= seq!['0']);
            assert(value == digit);
            assert(decimal(value) =~= seq![last]);
            assert(digits =~= zeros(count + 1) + decimal(value));
            assert(zeros(count + 1).len() == count + 1);
        } else {
            assert(value / 10 == before && value % 10 == digit);
            assert(decimal(value) =~= decimal(before).push(last));
            assert(digits =~= zeros(count) + decimal(value));
        }
    }
}

/// A text names a number exactly when it is a way to write it.
pub proof fn law_numbers_are_read_as_written(text: Seq<char>, number: u16)
    ensures
        u16_of(text) == Some(number) <==> exists|plus: bool, count: nat|
            text == #[trigger] port_text(plus, count, number as nat),
{
    if u16_of(text) == Some(number) {
        let digits = without_plus(text);
        lemma_digits_are_decimal(digits);
        let count = choose|count: nat|
            digits == zeros(count) + #[trigger] decimal(digits_value(digits)) && count
                < digits.len() && zeros(count).len() == count;
        let plus = text.len() > 0 && text[0] == '+';
        assert(text =~= (if plus {
            seq!['+']
        } else {
            Seq::empty()
        }) + digits);
        assert(text =~= port_text(plus, count, number as nat));
    }
    if exists|plus: bool, count: nat| text == #[trigger] port_text(plus, count, number as nat) {
        let (plus, count) = choose|plus: bool, count: nat|
            text == #[trigger] port_text(plus, count, number as nat);
        lemma_written_number(plus, count, number);
    }
}

/// What is written is read.
proof fn lemma_written_number(plus: bool, count: nat, number: u16)
    ensures
        u16_of(port_text(plus, count, number as nat)) == Some(number),
{
    let text = port_text(plus, count, number as nat);
    let digits = zeros(count) + decimal(number as nat);
    law_decimal_reads_back(number as nat);
    lemma_decimal_digits(number as nat);
    lemma_zeros(count, decimal(number as nat));
    assert(digits.len() > 0);
    assert(is_digit(digits[0]));
    if plus {
        assert(text[0] == '+');
        assert(text.skip(1) =~= digits);
    } else {
        assert(text =~= digits);
    }
}

/// A way to write a port other than zero.
pub open spec fn writes_port(text: Seq<char>, port: u16) -> bool {
    port > 0 && exists|plus: bool, count: nat| text == #[trigger] port_text(
        plus,
        count,
        port as nat,
    )
}

/// The upstream is that of the environment; where the environment has none it is
/// that of the file, whatever else is set; where the file has none either, or an
/// empty one, it is the built-in one.
pub proof fn law_upstream_has_its_own_precedence(env: EnvironmentView, file: Option<JsonView>)
    ensures
        env.upstream is Some ==> settings(env, file).upstream == env.upstream->0,
        env.upstream is None ==> match file {
            Some(json) => match json.field("upstream"@) {
                Some(JsonView::Text(text)) => settings(env, file).upstream == if text.len() > 0 {
                    text
                } else {
                    "https://local.marcosbrendon.com"@
                },
                _ => settings(env, file).upstream == "https://local.marcosbrendon.com"@,
            },
            None => settings(env, file).upstream == "https://local.marcosbrendon.com"@,
        },
{
}

/// The port is that which the environment writes; where it writes none it is that
/// of the file, whatever else is set; where the file has none either, or one out
/// of range, it is the built-in one.
pub proof fn law_port_has_its_own_precedence(env: EnvironmentView, file: Option<JsonView>, port: u16)
    ensures
        env.port is Some && writes_port(env.port->0, port) ==> settings(env, file).port == port,
        env.port is None || (forall|other: u16| !#[trigger] writes_port(env.port->0, other))
            ==> match file {
            Some(json) => match json.field("port"@) {
                Some(JsonView::Number(NumberView::Unsigned(n))) => settings(env, file).port == if 0
                    < n <= 65535 {
                    n as u16
                } else {
                    47834
                },
                _ => settings(env, file).port == 47834,
            },
            None => settings(env, file).port == 47834,
        },
{
    if env.port is Some {
        let text = env.port->0;
        law_numbers_are_read_as_written(text, port);
        if let Some(number) = u16_of(text) {
            law_numbers_are_read_as_written(text, number);
            if number > 0 {
                assert(writes_port(text, number));
            }
        }
    }
}

/// The shared secret is that of the environment; where the environment has none,
/// or an empty one, it is that of the file, whatever else is set; where the file
/// has none either, or an empty one, there is none.
pub proof fn law_token_has_its_own_precedence(env: EnvironmentView, file: Option<JsonView>)
    ensures
        env.token is Some && env.token->0.len() > 0 ==> settings(env, file).token == env.token,
        env.token is None || env.token->0.len() == 0 ==> match file {
            Some(json) => match json.field("token"@) {
                Some(JsonView::Text(text)) => settings(env, file).token == if text.len() > 0 {
                    Some(text)
                } else {
                    None
                },
                _ => settings(env, file).token is None,
            },
            None => settings(env, file).token is None,
        },
{
}

/// No setting meddles with another: each depends only on its own variable and its
/// own field.
pub proof fn law_settings_do_not_meddle(
    env: EnvironmentView,
    file: JsonView,
    other_env: EnvironmentView,
    other_file: JsonView,
)
    ensures
        env.upstream == other_env.upstream && file.field("upstream"@) == other_file.field(
            "upstream"@,
        ) ==> settings(env, Some(file)).upstream == settings(other_env, Some(other_file)).upstream,
        env.port == other_env.port && file.field("port"@) == other_file.field("port"@)
            ==> settings(env, Some(file)).port == settings(other_env, Some(other_file)).port,
        env.token == other_env.token && file.field("token"@) == other_file.field("token"@)
            ==> settings(env, Some(file)).token == settings(other_env, Some(other_file)).token,
{
}

/// A file that could be read is taken for what its text parses to, and one that
/// could not gives the reason.
pub proof fn law_file_is_what_was_read(raw: String, reason: String)
    ensures
        file_at(Ok(raw)) == json_parse(raw@),
        file_at(Err(reason)) == Err::<JsonView, Seq<char>>(reason@),
{
}

/// The variables and the settings are seen as they are.
pub proof fn law_settings_are_seen_as_they_are(env: Environment, config: Config)
    ensures
        env@.upstream == (match env.upstream {
            Some(text) => Some(text@),
            None => None,
        }),
        env@.port == (match env.port {
            Some(text) => Some(text@),
            None => None,
        }),
        env@.token == (match env.token {
            Some(text) => Some(text@),
            None => None,
        }),
        config@.upstream == config.upstream@,
        config@.port == config.port,
        config@.token == (match config.token {
            Some(text) => Some(text@),
            None => None,
        }),
{
}

} // verus!
