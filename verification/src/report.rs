//! What the relay shows to the person who runs it.
use crate::config::{Config, ConfigView};
use crate::relay::Counters;
use crate::text::{decimal, joined, signed_decimal, to_decimal, to_signed_decimal};
use vstd::prelude::*;
use vstd::utf8::{
    decode_utf8, encode_utf8, encode_utf8_decode_utf8, encode_utf8_valid_utf8,
    is_ascii_chars, is_ascii_chars_encode_utf8, is_char_boundary,
};

verus! {

// ---------------------------------------------------------------------------
// Padding.
// ---------------------------------------------------------------------------

/// A run of spaces.
pub open spec fn spaces(n: nat) -> Seq<char> {
    Seq::new(n, |i: int| ' ')
}

/// A text can be brought to `w` bytes: it is no longer than that, or it can be
/// cut there without cutting a character.
pub open spec fn can_pad(text: Seq<char>, w: nat) -> bool {
    encode_utf8(text).len() > w ==> is_char_boundary(encode_utf8(text), w as int)
}

/// A text brought to `w` bytes: cut where it is longer, filled up with spaces
/// where it is shorter.
pub open spec fn padded(text: Seq<char>, w: nat) -> Seq<char> {
    if encode_utf8(text).len() > w {
        decode_utf8(encode_utf8(text).take(w as int))
    } else {
        text + spaces((w - encode_utf8(text).len()) as nat)
    }
}

/// The text brought to `w` bytes.
pub fn pad(s: &str, w: usize) -> (out: String)
    requires
        can_pad(s@, w as nat),
    ensures
        out@ == padded(s@, w as nat),
{
    let len = s.as_bytes().len();
    if len > w {
        let (start, _) = s.split_at(w);
        proof {
            assert(encode_utf8(start@) =~= encode_utf8(s@).take(w as int));
            encode_utf8_decode_utf8(start@);
        }
        start.to_owned()
    } else {
        let mut out = s.to_owned();
        let mut n: usize = len;
        assert(out@ =~= s@ + spaces(0));
        while n < w
            invariant
                len == encode_utf8(s@).len(),
                len <= n <= w,
                out@ == s@ + spaces((n - len) as nat),
            decreases w - n,
        {
            out.push(' ');
            n += 1;
            assert(out@ =~= s@ + spaces((n - len) as nat));
        }
        out
    }
}

/// Encoding is done piece by piece.
proof fn lemma_encode_concat(a: Seq<char>, b: Seq<char>)
    ensures
        encode_utf8(a + b) == encode_utf8(a) + encode_utf8(b),
    decreases a.len(),
{
    if a.len() == 0 {
        assert(a + b =~= b);
        assert(encode_utf8(a) + encode_utf8(b) =~= encode_utf8(b));
    } else {
        assert((a + b).drop_first() =~= a.drop_first() + b);
        lemma_encode_concat(a.drop_first(), b);
        assert(encode_utf8(a + b) =~= encode_utf8(a) + encode_utf8(b));
    }
}

/// A padded text takes exactly the bytes that it is padded to.
pub proof fn law_padded_to_width(text: Seq<char>, w: nat)
    requires
        can_pad(text, w),
    ensures
        encode_utf8(padded(text, w)).len() == w,
{
    let bytes = encode_utf8(text);
    encode_utf8_valid_utf8(text);
    if bytes.len() > w {
        vstd::utf8::valid_utf8_split(bytes, w as int);
        assert(bytes.take(w as int) =~= bytes.subrange(0, w as int));
        vstd::utf8::decode_utf8_encode_utf8(bytes.take(w as int));
    } else {
        let fill = spaces((w - bytes.len()) as nat);
        lemma_encode_concat(text, fill);
        is_ascii_chars_encode_utf8(fill);
    }
}

/// A decimal number is made of digits, and a port has at most five of them.
proof fn lemma_port_digits(n: nat)
    requires
        n <= 65535,
    ensures
        is_ascii_chars(decimal(n)),
        decimal(n).len() <= 5,
        encode_utf8(decimal(n)).len() <= 5,
{
    reveal_with_fuel(decimal, 6);
    is_ascii_chars_encode_utf8(decimal(n));
}

// ---------------------------------------------------------------------------
// The banner.
// ---------------------------------------------------------------------------

/// The lines of the banner.
pub open spec fn banner_lines(config: ConfigView) -> Seq<Seq<char>> {
    let port = decimal(config.port as nat);
    seq![
        ""@,
        "╔═══════════════════════════════════════════════════════════════╗"@,
        "║                    DSTP Relay (running)                       ║"@,
        "╠═══════════════════════════════════════════════════════════════╣"@,
        "║  Listening:  http://127.0.0.1:"@ + padded(port, 31) + "║"@,
        "║  Upstream:   "@ + padded(config.upstream, 49) + "║"@,
        "║                                                               ║"@,
        "║  In the DST mod config, set BACKEND_URL to:                   ║"@,
        "║    http://127.0.0.1:"@ + padded(port, 41) + "║"@,
        "║                                                               ║"@,
        "║  Keep this window open. Close it to stop the relay.           ║"@,
        "╚═══════════════════════════════════════════════════════════════╝"@,
        ""@,
    ]
}

/// A line of the banner that ends in a padded text.
fn padded_line(start: &str, text: &str, w: usize) -> (line: String)
    requires
        can_pad(text@, w as nat),
    ensures
        line@ == start@ + padded(text@, w as nat) + "║"@,
{
    let mut line = joined(start, pad(text, w).as_str());
    line.append("║");
    line
}

/// The lines that are shown when the relay starts: where it listens, and where
/// it forwards to.
pub fn banner(config: &Config) -> (lines: Vec<String>)
    requires
        can_pad(config.upstream@, 49),
    ensures
        lines@.map_values(|line: String| line@) == banner_lines(config@),
{
    proof {
        lemma_port_digits(config.port as nat);
    }
    let port = to_decimal(config.port as u64);
    let mut lines: Vec<String> = Vec::new();
    lines.push("".to_owned());
    lines.push("╔═══════════════════════════════════════════════════════════════╗".to_owned());
    lines.push("║                    DSTP Relay (running)                       ║".to_owned());
    lines.push("╠═══════════════════════════════════════════════════════════════╣".to_owned());
    lines.push(padded_line("║  Listening:  http://127.0.0.1:", port.as_str(), 31));
    lines.push(padded_line("║  Upstream:   ", config.upstream.as_str(), 49));
    lines.push("║                                                               ║".to_owned());
    lines.push("║  In the DST mod config, set BACKEND_URL to:                   ║".to_owned());
    lines.push(padded_line("║    http://127.0.0.1:", port.as_str(), 41));
    lines.push("║                                                               ║".to_owned());
    lines.push("║  Keep this window open. Close it to stop the relay.           ║".to_owned());
    lines.push("╚═══════════════════════════════════════════════════════════════╝".to_owned());
    lines.push("".to_owned());
    assert(lines@.map_values(|line: String| line@) =~= banner_lines(config@));
    lines
}

// ---------------------------------------------------------------------------
// The heartbeat.
// ---------------------------------------------------------------------------

/// The time between two lines of the heartbeat, in seconds.
pub const HEARTBEAT_SECS: u64 = 30;

/// The whole seconds in a number of milliseconds, cut towards zero.
pub open spec fn whole_seconds(millis: int) -> int {
    if millis >= 0 {
        millis / 1000
    } else {
        -((-millis) / 1000)
    }
}

/// The whole seconds in a number of milliseconds.
fn to_seconds(millis: i64) -> (seconds: i64)
    ensures
        seconds == whole_seconds(millis as int),
{
    if millis >= 0 {
        (millis as u64 / 1000) as i64
    } else {
        let size: u64 = (-(millis + 1)) as u64 + 1;
        -((size / 1000) as i64)
    }
}

/// What the heartbeat says of the backend.
pub open spec fn upstream_status(last_ok: i64, now: i64) -> Seq<char> {
    if last_ok == 0 {
        "never connected"@
    } else {
        "last success "@ + signed_decimal(whole_seconds(now - last_ok)) + "s ago"@
    }
}

/// The line of the heartbeat.
pub open spec fn heartbeat_line(counters: Counters, ws_ready: bool, now: i64) -> Seq<char> {
    "[relay] "@ + decimal(counters.requests as nat) + " req, "@ + decimal(counters.errors as nat)
        + " err, "@ + (if ws_ready {
        "WS up"@
    } else {
        "WS down"@
    }) + ", upstream: "@ + upstream_status(counters.last_ok, now)
}

/// The line that is shown from time to time: how much was done, whether the
/// tunnel is up, and how long ago the backend last answered.
pub fn heartbeat(counters: &Counters, ws_ready: bool, now: i64) -> (line: String)
    requires
        counters.last_ok != 0 ==> i64::MIN <= now - counters.last_ok <= i64::MAX,
    ensures
        line@ == heartbeat_line(*counters, ws_ready, now),
{
    let mut line = "[relay] ".to_owned();
    line.append(to_decimal(counters.requests).as_str());
    line.append(" req, ");
    line.append(to_decimal(counters.errors).as_str());
    line.append(" err, ");
    if ws_ready {
        line.append("WS up");
    } else {
        line.append("WS down");
    }
    line.append(", upstream: ");
    let mut status = String::new();
    if counters.last_ok == 0 {
        status.append("never connected");
        assert(status@ =~= "never connected"@);
    } else {
        status.append("last success ");
        status.append(to_signed_decimal(to_seconds(now - counters.last_ok)).as_str());
        status.append("s ago");
        assert(status@ =~= upstream_status(counters.last_ok, now));
    }
    line.append(status.as_str());
    line
}

// ---------------------------------------------------------------------------
// What is shown.
// ---------------------------------------------------------------------------

/// A text that fits is shown whole, followed by spaces; of one that does not, as
/// many bytes are shown as there is room for.
pub proof fn law_padded_shows_the_text(text: Seq<char>, w: nat, i: int)
    requires
        can_pad(text, w),
    ensures
        encode_utf8(text).len() <= w ==> text.is_prefix_of(padded(text, w)),
        encode_utf8(text).len() <= w && text.len() <= i < padded(text, w).len() ==> padded(
            text,
            w,
        )[i] == ' ',
        encode_utf8(text).len() > w ==> encode_utf8(padded(text, w)) == encode_utf8(text).take(
            w as int,
        ),
{
    let bytes = encode_utf8(text);
    encode_utf8_valid_utf8(text);
    if bytes.len() > w {
        vstd::utf8::valid_utf8_split(bytes, w as int);
        assert(bytes.take(w as int) =~= bytes.subrange(0, w as int));
        vstd::utf8::decode_utf8_encode_utf8(bytes.take(w as int));
    }
}

/// The banner shows the port, twice, and the backend where it fits, each in full
/// behind its caption.
pub proof fn law_banner_shows_port_and_backend(config: ConfigView)
    requires
        can_pad(config.upstream, 49),
    ensures
        ({
            let lines = banner_lines(config);
            let port = decimal(config.port as nat);
            &&& ("║  Listening:  http://127.0.0.1:"@ + port + seq![' ']).is_prefix_of(lines[4])
            &&& ("║    http://127.0.0.1:"@ + port + seq![' ']).is_prefix_of(lines[8])
            &&& encode_utf8(config.upstream).len() <= 49 ==> ("║  Upstream:   "@
                + config.upstream).is_prefix_of(lines[5])
        }),
{
    let port = decimal(config.port as nat);
    lemma_port_digits(config.port as nat);
    lemma_shown("║  Listening:  http://127.0.0.1:"@, port, 31);
    lemma_shown("║    http://127.0.0.1:"@, port, 41);
    if encode_utf8(config.upstream).len() <= 49 {
        let start = "║  Upstream:   "@;
        let line = start + padded(config.upstream, 49) + "║"@;
        assert((start + config.upstream) =~= line.take((start + config.upstream).len() as int));
    }
}

/// A text that leaves room is shown behind its caption and before a space.
proof fn lemma_shown(start: Seq<char>, text: Seq<char>, w: nat)
    requires
        encode_utf8(text).len() < w,
    ensures
        (start + text + seq![' ']).is_prefix_of(start + padded(text, w) + "║"@),
{
    let line = start + padded(text, w) + "║"@;
    let shown = start + text + seq![' '];
    assert(shown =~= line.take(shown.len() as int));
}

/// The seconds shown are the whole ones: they lie within a second of the
/// milliseconds, towards zero.
pub proof fn law_seconds_are_whole(millis: int)
    ensures
        millis >= 0 ==> 0 <= millis - whole_seconds(millis) * 1000 < 1000,
        millis <= 0 ==> 0 <= whole_seconds(millis) * 1000 - millis < 1000,
{
}

/// The heartbeat begins with the requests and the errors counted, says whether the
/// tunnel is up, and ends with how long ago the backend last answered, if it did.
pub proof fn law_heartbeat_tells_the_counts(counters: Counters, ws_ready: bool, now: i64)
    ensures
        ({
            let line = heartbeat_line(counters, ws_ready, now);
            let start = "[relay] "@ + decimal(counters.requests as nat) + " req, "@ + decimal(
                counters.errors as nat,
            ) + " err, "@;
            let seconds = whole_seconds(now - counters.last_ok);
            &&& ws_ready ==> (start + "WS up, upstream: "@).is_prefix_of(line)
            &&& !ws_ready ==> (start + "WS down, upstream: "@).is_prefix_of(line)
            &&& counters.last_ok == 0 ==> line == start + (if ws_ready {
                "WS up, upstream: never connected"@
            } else {
                "WS down, upstream: never connected"@
            })
            &&& counters.last_ok != 0 ==> line == start + (if ws_ready {
                "WS up, upstream: last success "@
            } else {
                "WS down, upstream: last success "@
            }) + signed_decimal(seconds) + "s ago"@
        }),
{
    reveal_strlit("WS up");
    reveal_strlit("WS down");
    reveal_strlit(", upstream: ");
    reveal_strlit("never connected");
    reveal_strlit("last success ");
    reveal_strlit("WS up, upstream: ");
    reveal_strlit("WS down, upstream: ");
    reveal_strlit("WS up, upstream: never connected");
    reveal_strlit("WS down, upstream: never connected");
    reveal_strlit("WS up, upstream: last success ");
    reveal_strlit("WS down, upstream: last success ");
    let line = heartbeat_line(counters, ws_ready, now);
    let start = "[relay] "@ + decimal(counters.requests as nat) + " req, "@ + decimal(
        counters.errors as nat,
    ) + " err, "@;
    let seconds = whole_seconds(now - counters.last_ok);
    assert("WS up, upstream: "@ =~= "WS up"@ + ", upstream: "@);
    assert("WS down, upstream: "@ =~= "WS down"@ + ", upstream: "@);
    assert("WS up, upstream: never connected"@ =~= "WS up"@ + ", upstream: "@ + "never connected"@);
    assert("WS down, upstream: never connected"@ =~= "WS down"@ + ", upstream: "@
        + "never connected"@);
    assert("WS up, upstream: last success "@ =~= "WS up"@ + ", upstream: "@ + "last success "@);
    assert("WS down, upstream: last success "@ =~= "WS down"@ + ", upstream: "@ + "last success "@);
    let up = if ws_ready {
        "WS up, upstream: "@
    } else {
        "WS down, upstream: "@
    };
    assert(line =~= start + up + upstream_status(counters.last_ok, now));
    assert((start + up) =~= line.take((start + up).len() as int));
    if counters.last_ok == 0 {
        assert(line =~= start + (if ws_ready {
            "WS up, upstream: never connected"@
        } else {
            "WS down, upstream: never connected"@
        }));
    } else {
        assert(line =~= start + (if ws_ready {
            "WS up, upstream: last success "@
        } else {
            "WS down, upstream: last success "@
        }) + signed_decimal(seconds) + "s ago"@);
    }
}

/// The heartbeat comes every half a minute.
pub proof fn law_heartbeat_comes_every_half_minute()
    ensures
        HEARTBEAT_SECS == 30,
{
}

/// The banner has thirteen lines, the first and the last of them empty; all others
/// are equally wide, but for those with the port, which are one narrower, where the
/// backend is named in ASCII.
pub proof fn law_banner_has_its_shape(config: ConfigView, i: int)
    requires
        can_pad(config.upstream, 49),
        is_ascii_chars(config.upstream),
        config.upstream.len() <= 49,
        1 <= i <= 11,
    ensures
        banner_lines(config).len() == 13,
        banner_lines(config)[0] == Seq::<char>::empty(),
        banner_lines(config)[12] == Seq::<char>::empty(),
        banner_lines(config)[i].len() == if i == 4 || i == 8 {
            64int
        } else {
            65int
        },
{
    reveal_strlit("");
    reveal_strlit("╔═══════════════════════════════════════════════════════════════╗");
    reveal_strlit("║                    DSTP Relay (running)                       ║");
    reveal_strlit("╠═══════════════════════════════════════════════════════════════╣");
    reveal_strlit("║  Listening:  http://127.0.0.1:");
    reveal_strlit("║  Upstream:   ");
    reveal_strlit("║    http://127.0.0.1:");
    reveal_strlit("║                                                               ║");
    reveal_strlit("║  In the DST mod config, set BACKEND_URL to:                   ║");
    reveal_strlit("║  Keep this window open. Close it to stop the relay.           ║");
    reveal_strlit("╚═══════════════════════════════════════════════════════════════╝");
    reveal_strlit("║");
    is_ascii_chars_encode_utf8(config.upstream);
    lemma_port_digits(config.port as nat);
    is_ascii_chars_encode_utf8(decimal(config.port as nat));
    assert(""@ =~= Seq::<char>::empty());
}

} // verus!
