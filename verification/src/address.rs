//! Reading the IP address and the port to bind to or to connect to: the
//! prompts, the defaults, and what a typed line is taken to mean.
use vstd::prelude::*;
use crate::text::{
    dec, is_digit, is_ws, lemma_dec_value, lemma_port_roundtrip, parse_u16, parse_u16_spec, trim,
    trim_end, trim_start, trim_str,
};

verus! {

/// Whether an address is asked for a server (to bind) or a client (to connect).
#[derive(Debug, Clone, Copy, PartialEq, Eq, Structural)]
pub enum AdressMode {
    Server,
    Client,
}

/// The address used when the user leaves the line blank.
pub open spec fn default_ip_spec(mode: AdressMode) -> Seq<char> {
    match mode {
        AdressMode::Server => "0.0.0.0"@,
        AdressMode::Client => "127.0.0.1"@,
    }
}

/// The port used when the user leaves the line blank.
pub open spec fn default_port_spec(mode: AdressMode) -> u16 {
    match mode {
        AdressMode::Server => 0,
        AdressMode::Client => 5555,
    }
}

/// The address used when the user leaves the line blank.
pub fn default_ip(mode: AdressMode) -> (res: &'static str)
    ensures
        res@ == default_ip_spec(mode),
{
    match mode {
        AdressMode::Server => "0.0.0.0",
        AdressMode::Client => "127.0.0.1",
    }
}

/// The port used when the user leaves the line blank.
pub fn default_port(mode: AdressMode) -> (res: u16)
    ensures
        res == default_port_spec(mode),
{
    match mode {
        AdressMode::Server => 0,
        AdressMode::Client => 5555,
    }
}

/// The prompt shown before an address is read.
pub open spec fn ip_prompt_spec(message: Option<Seq<char>>, mode: AdressMode) -> Seq<char> {
    match message {
        Some(m) => "> "@ + m,
        None => match mode {
            AdressMode::Server => "Enter Destination IP (leave blank for 0.0.0.0): "@,
            AdressMode::Client => "Enter Destination IP (leave blank for 127.0.0.1): "@,
        },
    }
}

/// The prompt shown before a port is read.
pub open spec fn port_prompt_spec(message: Option<Seq<char>>, mode: AdressMode) -> Seq<char> {
    match message {
        Some(m) => "> "@ + m,
        None => match mode {
            AdressMode::Server => "Enter destination port (leave blank for 0): "@,
            AdressMode::Client => "Enter destination port (leave blank for 5555): "@,
        },
    }
}

/// The view of an optional string slice.
pub open spec fn opt_str_view(s: Option<&str>) -> Option<Seq<char>> {
    match s {
        Some(t) => Some(t@),
        None => None,
    }
}

/// The prompt shown before an address is read.
pub fn ip_prompt(message: Option<&str>, mode: AdressMode) -> (res: String)
    ensures
        res@ == ip_prompt_spec(opt_str_view(message), mode),
{
    match message {
        Some(m) => {
            let mut s = String::from_str("> ");
            s.append(m);
            s
        },
        None => match mode {
            AdressMode::Server => String::from_str(
                "Enter Destination IP (leave blank for 0.0.0.0): ",
            ),
            AdressMode::Client => String::from_str(
                "Enter Destination IP (leave blank for 127.0.0.1): ",
            ),
        },
    }
}

/// The prompt shown before a port is read.
pub fn port_prompt(message: Option<&str>, mode: AdressMode) -> (res: String)
    ensures
        res@ == port_prompt_spec(opt_str_view(message), mode),
{
    match message {
        Some(m) => {
            let mut s = String::from_str("> ");
            s.append(m);
            s
        },
        None => match mode {
            AdressMode::Server => String::from_str("Enter destination port (leave blank for 0): "),
            AdressMode::Client => String::from_str(
                "Enter destination port (leave blank for 5555): ",
            ),
        },
    }
}

/// The host that a typed line names: the trimmed line, or the default when it is blank.
pub open spec fn host_of_line(line: Seq<char>, mode: AdressMode) -> Seq<char> {
    if trim(line).len() == 0 {
        default_ip_spec(mode)
    } else {
        trim(line)
    }
}

/// Reads a typed address line: the trimmed line, or the default address
/// when it is blank. Whether the host is an IP address is decided by the
/// caller, which asks again when it is not.
pub fn host_from_input(line: &str, mode: AdressMode) -> (res: String)
    ensures
        res@ == host_of_line(line@, mode),
{
    let trimmed = trim_str(line);
    if trimmed.unicode_len() == 0 {
        String::from_str(default_ip(mode))
    } else {
        trimmed
    }
}

/// What a typed port line gives: the default when it is blank, else the
/// port it spells, or nothing (the user is asked again).
pub open spec fn port_from_input_spec(line: Seq<char>, mode: AdressMode) -> Option<u16> {
    if trim(line).len() == 0 {
        Some(default_port_spec(mode))
    } else {
        parse_u16_spec(trim(line))
    }
}

/// Reads a typed port line: trimmed, blank meaning the default.
pub fn port_from_input(line: &str, mode: AdressMode) -> (res: Option<u16>)
    ensures
        res == port_from_input_spec(line@, mode),
{
    let trimmed = trim_str(line);
    if trimmed.unicode_len() == 0 {
        Some(default_port(mode))
    } else {
        parse_u16(trimmed.as_str())
    }
}

/// A port given on the command line: parsed as it stands, with no trimming.
pub fn port_from_argument(port: &str) -> (res: Option<u16>)
    ensures
        res == parse_u16_spec(port@),
{
    parse_u16(port)
}

/// Every character of `s` is whitespace.
pub open spec fn all_ws(s: Seq<char>) -> bool {
    forall|i: int| 0 <= i < s.len() ==> is_ws(#[trigger] s[i])
}

proof fn lemma_trim_start_blank_prefix(p: Seq<char>, s: Seq<char>)
    requires
        all_ws(p),
    ensures
        trim_start(p + s) == trim_start(s),
    decreases p.len(),
{
    if p.len() > 0 {
        assert(is_ws((p + s)[0]));
        assert((p + s).drop_first() =~= p.drop_first() + s);
        lemma_trim_start_blank_prefix(p.drop_first(), s);
    } else {
        assert(p + s =~= s);
    }
}

proof fn lemma_trim_end_blank_suffix(s: Seq<char>, q: Seq<char>)
    requires
        all_ws(q),
    ensures
        trim_end(s + q) == trim_end(s),
    decreases q.len(),
{
    if q.len() > 0 {
        assert(is_ws((s + q).last()));
        assert((s + q).drop_last() =~= s + q.drop_last());
        lemma_trim_end_blank_suffix(s, q.drop_last());
    } else {
        assert(s + q =~= s);
    }
}

/// A port typed with any blanks before and after it (the newline of the
/// line among them) reads as that port, for a server as for a client.
pub proof fn lemma_typed_port_read(n: u16, before: Seq<char>, after: Seq<char>, mode: AdressMode)
    requires
        all_ws(before),
        all_ws(after),
    ensures
        port_from_input_spec(before + dec(n as nat) + after, mode) == Some(n),
{
    let d = dec(n as nat);
    lemma_dec_value(n as nat);
    lemma_port_roundtrip(n);
    assert(before + d + after =~= before + (d + after));
    lemma_trim_start_blank_prefix(before, d + after);
    assert((d + after)[0] == d[0]);
    assert(is_digit(d[0]));
    assert(!is_ws((d + after)[0]));
    assert(trim_start(d + after) == d + after);
    lemma_trim_end_blank_suffix(d, after);
    assert(is_digit(d[d.len() - 1]));
    assert(!is_ws(d.last()));
    assert(trim_end(d) == d);
    assert(trim(before + d + after) == d);
}

/// A line that is not blank gives the same port, or the same refusal, for
/// a server as for a client: only a blank line's default depends on the mode.
pub proof fn lemma_port_line_mode_independent(line: Seq<char>)
    requires
        trim(line).len() > 0,
    ensures
        port_from_input_spec(line, AdressMode::Server) == port_from_input_spec(
            line,
            AdressMode::Client,
        ),
{
}

} // verus!
