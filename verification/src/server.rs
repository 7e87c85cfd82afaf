//! What the server prints and decides around listening: the startup box,
//! the notices, the port to use, and the log lines.
use vstd::prelude::*;

use crate::config::{AppConfig, CleanUrlsConfig};
use crate::httpdate::{clock_text, chrono_now};
use crate::text::{decimal, push_char, push_decimal, push_str, to_chars};

verus! {

/// `s` padded with spaces to `width` characters, a colour reset put
/// before the padding; unchanged when it is already that wide.
pub open spec fn pad_right_spec(s: Seq<char>, width: nat) -> Seq<char> {
    if s.len() >= width {
        s
    } else {
        s + "\u{1b}[0m"@ + Seq::new((width - s.len()) as nat, |i: int| ' ')
    }
}

/// Pads `s` on the right to `width` visible characters.
pub fn pad_right(s: &str, width: usize) -> (r: String)
    ensures
        r@ == pad_right_spec(s@, width as nat),
{
    let cs = to_chars(s);
    let visible_len = cs.len();
    if visible_len >= width {
        return String::from_str(s);
    }
    let mut r = String::from_str(s);
    push_str(&mut r, "\u{1b}[0m");
    let ghost head = r@;
    let mut k: usize = 0;
    while k < width - visible_len
        invariant
            visible_len < width,
            k <= width - visible_len,
            r@ == head + Seq::new(k as nat, |i: int| ' '),
        decreases width - visible_len - k,
    {
        push_char(&mut r, ' ');
        k = k + 1;
        assert(r@ =~= head + Seq::new(k as nat, |i: int| ' '));
    }
    assert(r@ =~= pad_right_spec(s@, width as nat));
    r
}

/// How a listen address is shown: `localhost` for the unspecified
/// address, IPv6 addresses in brackets, others as they are written.
pub open spec fn display_host_spec(ip: Seq<char>, unspecified: bool, v6: bool) -> Seq<char> {
    if unspecified {
        "localhost"@
    } else if v6 {
        "["@ + ip + "]"@
    } else {
        ip
    }
}

/// How a listen address is shown in the startup message (`ip` is the
/// address as written by its `Display`).
pub fn localhost_display(ip: &str, unspecified: bool, v6: bool) -> (r: String)
    ensures
        r@ == display_host_spec(ip@, unspecified, v6),
{
    if unspecified {
        String::from_str("localhost")
    } else if v6 {
        let mut r = String::from_str("[");
        push_str(&mut r, ip);
        push_str(&mut r, "]");
        r
    } else {
        String::from_str(ip)
    }
}

/// `http://host:port`.
pub open spec fn url_spec(host: Seq<char>, port: u16) -> Seq<char> {
    "http://"@ + host + ":"@ + decimal(port as nat)
}

/// The URL of a host and port.
pub fn http_url(host: &str, port: u16) -> (r: String)
    ensures
        r@ == url_spec(host@, port),
{
    let mut r = String::from_str("http://");
    push_str(&mut r, host);
    push_str(&mut r, ":");
    push_decimal(&mut r, port as u64);
    r
}

pub open spec fn box_top() -> Seq<char> {
    "   \u{1b}[32m┌─────────────────────────────────────────────────┐\u{1b}[0m"@
}

pub open spec fn box_empty() -> Seq<char> {
    "   \u{1b}[32m│\u{1b}[0m                                                 \u{1b}[32m│\u{1b}[0m"@
}

pub open spec fn box_bottom() -> Seq<char> {
    "   \u{1b}[32m└─────────────────────────────────────────────────┘\u{1b}[0m"@
}

pub open spec fn box_serving() -> Seq<char> {
    "   \u{1b}[32m│\u{1b}[0m   Serving!                                      \u{1b}[32m│\u{1b}[0m"@
}

/// The lines of the startup message.
pub open spec fn startup_lines_spec(
    local_url: Seq<char>,
    network_url: Seq<char>,
    port_switched: bool,
    requested_port: u16,
) -> Seq<Seq<char>> {
    let head = seq![
        Seq::<char>::empty(),
        box_top(),
        box_empty(),
        box_serving(),
        box_empty(),
        "   \u{1b}[32m│\u{1b}[0m   - Local:    "@ + pad_right_spec(local_url, 43),
    ];
    let network = if network_url.len() > 0 && network_url != local_url {
        seq!["   \u{1b}[32m│\u{1b}[0m   - Network:  "@ + pad_right_spec(network_url, 43)]
    } else {
        Seq::<Seq<char>>::empty()
    };
    let switched = if port_switched {
        seq![
            "   \u{1b}[32m│\u{1b}[0m   \u{1b}[31mThis port was picked because "@ + decimal(
                requested_port as nat,
            ) + " is in use.\u{1b}[0m"@,
            box_empty(),
        ]
    } else {
        Seq::<Seq<char>>::empty()
    };
    head + network + seq![box_empty()] + switched + seq![box_bottom(), Seq::<char>::empty()]
}

pub open spec fn lines_view(v: Seq<String>) -> Seq<Seq<char>> {
    v.map_values(|s: String| s@)
}

/// The lines of the startup message: the local URL, the network URL when
/// there is one other than the local one, and a note when the requested
/// port was taken.
pub fn startup_lines(
    local_url: &str,
    network_url: &str,
    port_switched: bool,
    requested_port: u16,
) -> (r: Vec<String>)
    ensures
        lines_view(r@) == startup_lines_spec(
            local_url@,
            network_url@,
            port_switched,
            requested_port,
        ),
{
    let mut lines: Vec<String> = Vec::new();
    lines.push(String::new());
    lines.push(
        String::from_str(
            "   \u{1b}[32m┌─────────────────────────────────────────────────┐\u{1b}[0m",
        ),
    );
    lines.push(
        String::from_str(
            "   \u{1b}[32m│\u{1b}[0m                                                 \u{1b}[32m│\u{1b}[0m",
        ),
    );
    lines.push(
        String::from_str(
            "   \u{1b}[32m│\u{1b}[0m   Serving!                                      \u{1b}[32m│\u{1b}[0m",
        ),
    );
    lines.push(
        String::from_str(
            "   \u{1b}[32m│\u{1b}[0m                                                 \u{1b}[32m│\u{1b}[0m",
        ),
    );
    let mut local = String::from_str("   \u{1b}[32m│\u{1b}[0m   - Local:    ");
    push_str(&mut local, pad_right(local_url, 43).as_str());
    lines.push(local);
    let ghost head = lines_view(lines@);
    let l = String::from_str(local_url);
    let n = String::from_str(network_url);
    if to_chars(network_url).len() > 0 && n != l {
        let mut net = String::from_str("   \u{1b}[32m│\u{1b}[0m   - Network:  ");
        push_str(&mut net, pad_right(network_url, 43).as_str());
        lines.push(net);
    }
    lines.push(
        String::from_str(
            "   \u{1b}[32m│\u{1b}[0m                                                 \u{1b}[32m│\u{1b}[0m",
        ),
    );
    if port_switched {
        let mut sw = String::from_str(
            "   \u{1b}[32m│\u{1b}[0m   \u{1b}[31mThis port was picked because ",
        );
        push_decimal(&mut sw, requested_port as u64);
        push_str(&mut sw, " is in use.\u{1b}[0m");
        lines.push(sw);
        lines.push(
            String::from_str(
                "   \u{1b}[32m│\u{1b}[0m                                                 \u{1b}[32m│\u{1b}[0m",
            ),
        );
    }
    lines.push(
        String::from_str(
            "   \u{1b}[32m└─────────────────────────────────────────────────┘\u{1b}[0m",
        ),
    );
    lines.push(String::new());
    assert(lines_view(lines@) =~= startup_lines_spec(
        local_url@,
        network_url@,
        port_switched,
        requested_port,
    ));
    lines
}

/// The port to listen on after probing: the requested one when it could be
/// bound, else the one the system assigned, else the requested one.
pub fn fallback_port(requested: u16, requested_free: bool, assigned: Option<u16>) -> (r: u16)
    ensures
        r == if requested_free {
            requested
        } else {
            match assigned {
                Some(p) => p,
                None => requested,
            }
        },
{
    if requested_free {
        requested
    } else {
        match assigned {
            Some(p) => p,
            None => requested,
        }
    }
}

/// The port an endpoint listens on, and whether it differs from the
/// requested one (the startup box then says so). With `--no-port-switching`
/// the requested port is kept, whatever a probe found; else `probe` holds
/// whether the requested port was free and the port the system assigned.
pub open spec fn chosen_port_spec(requested: u16, no_port_switching: bool, probe: Option<(bool, Option<u16>)>) -> u16 {
    if no_port_switching {
        requested
    } else {
        match probe {
            Some((free, assigned)) => if free {
                requested
            } else {
                match assigned {
                    Some(p) => p,
                    None => requested,
                }
            },
            None => requested,
        }
    }
}

/// Chooses the port to listen on; the flag says whether it was switched.
pub fn choose_port(requested: u16, no_port_switching: bool, probe: Option<(bool, Option<u16>)>) -> (r: (
    u16,
    bool,
))
    ensures
        r.0 == chosen_port_spec(requested, no_port_switching, probe),
        r.1 == (r.0 != requested),
        no_port_switching ==> r.0 == requested && !r.1,
{
    let port = if no_port_switching {
        requested
    } else {
        match probe {
            Some((free, assigned)) => fallback_port(requested, free, assigned),
            None => requested,
        }
    };
    (port, port != requested)
}

/// Which notices to print at startup: the tip about clean URLs (SPA mode
/// with clean URLs off) and the warning that TLS is not served (a
/// certificate or key was given).
pub fn startup_notices(config: &AppConfig) -> (r: (bool, bool))
    ensures
        r.0 == (config.single && config.clean_urls@ == crate::config::PatternSetting::Flag(false)),
        r.1 == (config.ssl_cert is Some || config.ssl_key is Some),
{
    let tip = config.single && match &config.clean_urls {
        CleanUrlsConfig::Bool(b) => !*b,
        CleanUrlsConfig::Patterns(_) => false,
    };
    (tip, config.ssl_cert.is_some() || config.ssl_key.is_some())
}

/// The log line of a request (`ip` and `method` as written by their
/// `Display`), stamped with the time of day of `now_secs`.
pub fn request_log_line(now_secs: u64, ip: &str, method: &str, path: &str) -> (r: String)
    ensures
        r@ == "\u{1b}[44m\u{1b}[1m HTTP \u{1b}[0m "@ + clock_text((now_secs % 86400) as nat) + " "@
            + ip@ + " "@ + method@ + " "@ + path@,
{
    let mut r = String::from_str("\u{1b}[44m\u{1b}[1m HTTP \u{1b}[0m ");
    push_str(&mut r, chrono_now(now_secs).as_str());
    push_str(&mut r, " ");
    push_str(&mut r, ip);
    push_str(&mut r, " ");
    push_str(&mut r, method);
    push_str(&mut r, " ");
    push_str(&mut r, path);
    r
}

/// The log line of a response status: green below 400, red from 400 on.
pub fn response_log_line(code: u16) -> (r: String)
    ensures
        r@ == (if code < 400 {
            "\u{1b}[32m"@
        } else {
            "\u{1b}[31m"@
        }) + "  "@ + decimal(code as nat) + " \u{1b}[0m"@,
{
    let mut r = if code < 400 {
        String::from_str("\u{1b}[32m")
    } else {
        String::from_str("\u{1b}[31m")
    };
    push_str(&mut r, "  ");
    push_decimal(&mut r, code as u64);
    push_str(&mut r, " \u{1b}[0m");
    r
}

} // verus!
