//! USB serial CLI decisions: line editing and the `wifi`, `psk`, `server`,
//! `save`, `show`, `forget`, `clear`, `help` commands.
//!
//! The serial transport, the flash and the Wi-Fi rejoin live with the
//! caller: each command comes back as the text to print and the one effect
//! (save, erase, ...) left for the caller to perform.

use vstd::prelude::*;
use crate::fw::config::{
    fits, NetConfig, NetConfigView, CHECKSUM_MAX, DEFAULT_SLEEP_S, PSK_MAX, SERVER_MAX, SSID_MAX,
};
use crate::fw::protocol::{parse_server, piece_texts, push_pieces, server_of, fit_pieces};
use crate::text::{
    byte_len, chars_of, decimal, decimal_string, find_ws, first_ws, lemma_first_ws, push_str,
    same_text, string_in, string_of, trim, trim_bounds, trim_range, utf8_len,
};

verus! {

/// Capacity of the line being typed, in bytes.
pub const LINE_MAX: usize = 160;
/// Capacity of the `show` report, in bytes.
pub const SHOW_MAX: usize = 384;

/// What one received byte did to the line being typed.
#[derive(Clone, Copy, Debug, PartialEq, Eq)]
pub enum KeyAction {
    /// Carriage return or line feed: the line is complete.
    Enter,
    /// Backspace or delete removed the last character.
    Erased,
    /// A printable character was appended (echo it back).
    Echo,
    /// Nothing changed.
    Ignored,
}

/// Printable ASCII, space included.
pub open spec fn is_line_char(c: char) -> bool {
    ' ' <= c && c <= '~'
}

/// A line the editor can hold: printable ASCII, at most [`LINE_MAX`] characters.
pub open spec fn line_ok(s: Seq<char>) -> bool {
    s.len() <= LINE_MAX && forall|i: int| 0 <= i < s.len() ==> is_line_char(#[trigger] s[i])
}

/// The line after byte `b`, and what happened.
pub open spec fn key_step(line: Seq<char>, b: u8) -> (Seq<char>, KeyAction) {
    if b == 13 || b == 10 {
        (line, KeyAction::Enter)
    } else if b == 8 || b == 0x7f {
        if line.len() > 0 {
            (line.drop_last(), KeyAction::Erased)
        } else {
            (line, KeyAction::Ignored)
        }
    } else if 0x20 <= b && b <= 0x7e {
        if line.len() < LINE_MAX {
            (line.push(b as char), KeyAction::Echo)
        } else {
            (line, KeyAction::Ignored)
        }
    } else {
        (line, KeyAction::Ignored)
    }
}

/// The line being typed on the serial console.
pub struct LineEditor {
    line: String,
}

impl View for LineEditor {
    type V = Seq<char>;

    closed spec fn view(&self) -> Seq<char> {
        self.line@
    }
}

impl LineEditor {
    #[verifier::type_invariant]
    spec fn inv(self) -> bool {
        line_ok(self.line@)
    }

    /// An empty line.
    pub fn new() -> (e: Self)
        ensures
            e@.len() == 0,
    {
        LineEditor { line: String::new() }
    }

    /// The text typed so far.
    pub fn as_str(&self) -> (r: &str)
        ensures
            r@ == self@,
            line_ok(self@),
    {
        proof {
            use_type_invariant(self);
        }
        self.line.as_str()
    }

    /// Apply one received byte.
    pub fn feed(&mut self, b: u8) -> (r: KeyAction)
        ensures
            (final(self)@, r) == key_step(old(self)@, b),
            line_ok(final(self)@),
    {
        proof {
            use_type_invariant(&*self);
        }
        let v = chars_of(self.line.as_str());
        let n = v.len();
        if b == 13 || b == 10 {
            KeyAction::Enter
        } else if b == 8 || b == 0x7f {
            if n > 0 {
                let shorter = string_in(&v, 0, n - 1);
                assert(v@.subrange(0, n - 1) =~= v@.drop_last());
                self.line = shorter;
                KeyAction::Erased
            } else {
                KeyAction::Ignored
            }
        } else if 0x20 <= b && b <= 0x7e {
            if n < LINE_MAX {
                let c = b as char;
                let mut longer = string_of(&v);
                crate::text::push_char(&mut longer, c);
                assert(line_ok(longer@)) by {
                    assert forall|i: int| 0 <= i < longer@.len() implies is_line_char(
                        #[trigger] longer@[i],
                    ) by {
                        if i < n {
                            assert(longer@[i] == v@[i]);
                        }
                    }
                }
                self.line = longer;
                KeyAction::Echo
            } else {
                KeyAction::Ignored
            }
        } else {
            KeyAction::Ignored
        }
    }

    /// Hand out the completed line and start a new one.
    pub fn take(&mut self) -> (r: String)
        ensures
            r@ == old(self)@,
            line_ok(r@),
            final(self)@.len() == 0,
    {
        proof {
            use_type_invariant(&*self);
        }
        let done = string_of(&chars_of(self.line.as_str()));
        self.line = String::new();
        done
    }
}

/// `(command, argument)` of a trimmed line: split at the first whitespace
/// character, argument trimmed (`str::split_once` then `str::trim`).
pub open spec fn split_of(line: Seq<char>) -> (Seq<char>, Seq<char>) {
    let k = first_ws(line);
    if k < line.len() {
        (line.take(k), trim(line.skip(k + 1)))
    } else {
        (line, Seq::empty())
    }
}

/// Split a trimmed line into its command word and argument.
pub fn split_cmd(line: &str) -> (r: (String, String))
    ensures
        (r.0@, r.1@) == split_of(line@),
{
    let v = chars_of(line);
    let n = v.len();
    let k = find_ws(&v, 0, n);
    assert(v@.subrange(0, n as int) =~= v@);
    proof {
        lemma_first_ws(v@);
    }
    if k < n {
        let cmd = string_in(&v, 0, k);
        let (i, j) = trim_range(&v, k + 1, n);
        let rest = string_in(&v, i, j);
        assert(v@.subrange(0, k as int) =~= v@.take(k as int));
        assert(v@.subrange(k + 1, n as int) =~= v@.skip(k + 1));
        (cmd, rest)
    } else {
        (string_of(&v), String::new())
    }
}

/// What the caller does after a command besides printing its reply.
#[derive(Clone, Copy, Debug, PartialEq, Eq)]
pub enum CliAction {
    /// Print the reply and nothing else.
    Nothing,
    /// Print the settings report ([`show_text`]).
    Show,
    /// Write the settings to flash; on success ask Wi-Fi to rejoin.
    Save,
    /// Write the settings to flash, ignoring a failure.
    Persist,
    /// Erase the settings sector and ask Wi-Fi to rejoin.
    Erase,
}

/// A command's reply text and the effect left for the caller.
pub struct CliReply {
    pub text: String,
    pub action: CliAction,
}

/// Printed by `help`.
pub open spec fn help_text() -> Seq<char> {
    "wifi <ssid>\r\npsk <password>   (empty = open network)\r\nserver <host:port>\r\n  e.g. 192.168.0.251:8765\r\nsave             write flash and join Wi-Fi\r\nshow\r\nforget           drop last frame checksum (force next paint)\r\nclear            erase saved settings\r\n"@
}

/// Wi-Fi name and server both set.
pub open spec fn ready(c: NetConfigView) -> bool {
    c.ssid.len() > 0 && c.server.len() > 0
}

/// The settings after `clear`.
pub open spec fn empty_config() -> NetConfigView {
    NetConfigView {
        ssid: Seq::empty(),
        psk: Seq::empty(),
        server: Seq::empty(),
        last_checksum: Seq::empty(),
        sleep_s: DEFAULT_SLEEP_S,
    }
}

/// Settings after the command on `line`, its reply, and the caller's effect.
pub open spec fn cli_outcome(c: NetConfigView, line: Seq<char>) -> (NetConfigView, Seq<char>, CliAction) {
    let cmd = split_of(trim(line)).0;
    let rest = split_of(trim(line)).1;
    let ok = "ok. type save when ready.\r\n"@;
    if cmd == "help"@ || cmd == "?"@ {
        (c, help_text(), CliAction::Nothing)
    } else if cmd == "wifi"@ {
        if rest.len() == 0 || utf8_len(rest) > SSID_MAX {
            (c, "usage: wifi <ssid> (max 32)\r\n"@, CliAction::Nothing)
        } else {
            (NetConfigView { ssid: rest, ..c }, ok, CliAction::Nothing)
        }
    } else if cmd == "psk"@ {
        if utf8_len(rest) > PSK_MAX {
            (c, "psk too long (max 64)\r\n"@, CliAction::Nothing)
        } else {
            (NetConfigView { psk: rest, ..c }, ok, CliAction::Nothing)
        }
    } else if cmd == "server"@ {
        if server_of(rest) is None {
            (c, "usage: server <host:port>\r\n  example: 192.168.0.251:8765\r\n"@, CliAction::Nothing)
        } else {
            // The setting holds at most SERVER_MAX bytes; a longer text
            // (a scheme in front of a full-length address) leaves it empty.
            let s = if utf8_len(rest) <= SERVER_MAX {
                rest
            } else {
                Seq::empty()
            };
            (NetConfigView { server: s, ..c }, ok, CliAction::Nothing)
        }
    } else if cmd == "show"@ {
        (c, Seq::empty(), CliAction::Show)
    } else if cmd == "save"@ {
        if ready(c) {
            (c, Seq::empty(), CliAction::Save)
        } else {
            (c, "need wifi and server first.\r\n"@, CliAction::Nothing)
        }
    } else if cmd == "forget"@ {
        let c2 = NetConfigView { last_checksum: Seq::empty(), ..c };
        (c2, "checksum cleared.\r\n"@, if ready(c2) {
            CliAction::Persist
        } else {
            CliAction::Nothing
        })
    } else if cmd == "clear"@ {
        (empty_config(), "cleared.\r\n"@, CliAction::Erase)
    } else {
        (c, "unknown command. type help.\r\n"@, CliAction::Nothing)
    }
}

fn reply(text: &str, action: CliAction) -> (r: CliReply)
    ensures
        r.text@ == text@,
        r.action == action,
{
    let mut s = String::new();
    push_str(&mut s, text);
    assert(Seq::<char>::empty() + text@ =~= text@);
    CliReply { text: s, action }
}

/// Run one command line against the settings.
pub fn handle_line(cfg: &mut NetConfig, line: &str) -> (r: CliReply)
    requires
        old(cfg)@.wf(),
    ensures
        final(cfg)@.wf(),
        cli_outcome(old(cfg)@, line@) == (final(cfg)@, r.text@, r.action),
{
    let v = chars_of(line);
    let (i, j) = trim_bounds(&v);
    let t = string_in(&v, i, j);
    let (cmd, rest) = split_cmd(t.as_str());
    let c = cmd.as_str();
    let ok = "ok. type save when ready.\r\n";
    if same_text(c, "help") || same_text(c, "?") {
        return reply(
            "wifi <ssid>\r\npsk <password>   (empty = open network)\r\nserver <host:port>\r\n  e.g. 192.168.0.251:8765\r\nsave             write flash and join Wi-Fi\r\nshow\r\nforget           drop last frame checksum (force next paint)\r\nclear            erase saved settings\r\n",
            CliAction::Nothing,
        );
    }
    if same_text(c, "wifi") {
        let n = byte_len(rest.as_str());
        if rest.as_str().is_empty() || n > SSID_MAX {
            return reply("usage: wifi <ssid> (max 32)\r\n", CliAction::Nothing);
        }
        cfg.ssid = rest;
        return reply(ok, CliAction::Nothing);
    }
    if same_text(c, "psk") {
        let n = byte_len(rest.as_str());
        if n > PSK_MAX {
            return reply("psk too long (max 64)\r\n", CliAction::Nothing);
        }
        cfg.psk = rest;
        return reply(ok, CliAction::Nothing);
    }
    if same_text(c, "server") {
        if parse_server(rest.as_str()).is_none() {
            return reply(
                "usage: server <host:port>\r\n  example: 192.168.0.251:8765\r\n",
                CliAction::Nothing,
            );
        }
        let n = byte_len(rest.as_str());
        if n <= SERVER_MAX {
            cfg.server = rest;
        } else {
            cfg.server = String::new();
            assert(fits(cfg.server@, SERVER_MAX as int)) by {
                assert(vstd::utf8::encode_utf8(cfg.server@) =~= Seq::<u8>::empty());
            }
        }
        return reply(ok, CliAction::Nothing);
    }
    if same_text(c, "show") {
        return CliReply { text: String::new(), action: CliAction::Show };
    }
    if same_text(c, "save") {
        if cfg.is_ready() {
            return CliReply { text: String::new(), action: CliAction::Save };
        }
        return reply("need wifi and server first.\r\n", CliAction::Nothing);
    }
    if same_text(c, "forget") {
        cfg.last_checksum = String::new();
        assert(fits(cfg.last_checksum@, CHECKSUM_MAX as int)) by {
            assert(vstd::utf8::encode_utf8(cfg.last_checksum@) =~= Seq::<u8>::empty());
        }
        let action = if cfg.is_ready() {
            CliAction::Persist
        } else {
            CliAction::Nothing
        };
        return reply("checksum cleared.\r\n", action);
    }
    if same_text(c, "clear") {
        *cfg = NetConfig::empty();
        assert(cfg@.ssid =~= Seq::<char>::empty());
        assert(cfg@.psk =~= Seq::<char>::empty());
        assert(cfg@.server =~= Seq::<char>::empty());
        assert(cfg@.last_checksum =~= Seq::<char>::empty());
        return reply("cleared.\r\n", CliAction::Erase);
    }
    reply("unknown command. type help.\r\n", CliAction::Nothing)
}

/// The pieces of the `show` report, in the order they are written.
pub open spec fn show_pieces(
    c: NetConfigView,
    status: Seq<char>,
    mv: u32,
    pct: u16,
    on_usb: bool,
    wake: Seq<char>,
) -> Seq<Seq<char>> {
    seq![
        "ssid: "@,
        c.ssid,
        "\r\npsk:  "@,
        if c.psk.len() == 0 { "(none)"@ } else { "(set)"@ },
        "\r\nurl:  "@,
        c.server,
        "\r\nsleep: "@,
        decimal(c.sleep_s as nat),
        " s (from server)\r\nchecksum: "@,
        if c.last_checksum.len() == 0 { "(none)"@ } else { c.last_checksum },
        "\r\n"@,
        status,
        "\r\nbattery: "@,
        decimal(mv as nat),
        " mV ~"@,
        decimal(pct as nat),
        "%\r\nleds: "@,
        if on_usb { "USB host (user LED on)"@ } else { "battery (user LED off)"@ },
        "\r\nwake: "@,
        wake,
        "\r\n"@,
    ]
}

/// The `show` report: settings, link status, battery, power source and wake
/// reason, each piece kept while the report fits [`SHOW_MAX`] bytes.
pub fn show_text(cfg: &NetConfig, status: &str, mv: u32, pct: u16, on_usb: bool, wake: &str) -> (r: String)
    ensures
        r@ == fit_pieces(Seq::empty(), show_pieces(cfg@, status@, mv, pct, on_usb, wake@), SHOW_MAX as nat),
{
    let sleep_s = decimal_string(cfg.sleep_s as u64);
    let mv_s = decimal_string(mv as u64);
    let pct_s = decimal_string(pct as u64);
    let psk_word = if cfg.psk.as_str().is_empty() { "(none)" } else { "(set)" };
    let checksum = if cfg.last_checksum.as_str().is_empty() {
        "(none)"
    } else {
        cfg.last_checksum.as_str()
    };
    let leds = if on_usb { "USB host (user LED on)" } else { "battery (user LED off)" };
    let pieces: Vec<&str> = vec![
        "ssid: ",
        cfg.ssid.as_str(),
        "\r\npsk:  ",
        psk_word,
        "\r\nurl:  ",
        cfg.server.as_str(),
        "\r\nsleep: ",
        sleep_s.as_str(),
        " s (from server)\r\nchecksum: ",
        checksum,
        "\r\n",
        status,
        "\r\nbattery: ",
        mv_s.as_str(),
        " mV ~",
        pct_s.as_str(),
        "%\r\nleds: ",
        leds,
        "\r\nwake: ",
        wake,
        "\r\n",
    ];
    let mut out = String::new();
    assert(vstd::utf8::encode_utf8(out@) =~= Seq::<u8>::empty());
    push_pieces(&mut out, pieces.as_slice(), SHOW_MAX);
    assert(piece_texts(pieces@) =~= show_pieces(cfg@, status@, mv, pct, on_usb, wake@));
    out
}

/// Settings are written to flash only once they can be used: a command line
/// asks for a save only when both the Wi-Fi name and the server are set, and
/// then leaves the settings as they are and prints nothing; `save` without
/// them is refused with a hint and writes nothing. No command but `clear`
/// erases, and only `save` saves.
pub proof fn lemma_save_needs_wifi_and_server(c: NetConfigView, line: Seq<char>)
    ensures
        cli_outcome(c, line).2 == CliAction::Save ==> {
            &&& c.ssid.len() > 0
            &&& c.server.len() > 0
            &&& split_of(trim(line)).0 == "save"@
            &&& cli_outcome(c, line).0 == c
            &&& cli_outcome(c, line).1.len() == 0
        },
        split_of(trim(line)).0 == "save"@ && (c.ssid.len() == 0 || c.server.len() == 0) ==> cli_outcome(c, line) == (
            c,
            "need wifi and server first.\r\n"@,
            CliAction::Nothing,
        ),
        split_of(trim(line)).0 == "save"@ && c.ssid.len() > 0 && c.server.len() > 0 ==> cli_outcome(c, line).2
            == CliAction::Save,
        cli_outcome(c, line).2 == CliAction::Erase ==> split_of(trim(line)).0 == "clear"@,
{
    reveal_strlit("save");
    reveal_strlit("help");
    reveal_strlit("?");
    reveal_strlit("wifi");
    reveal_strlit("psk");
    reveal_strlit("server");
    reveal_strlit("show");
    let cmd = split_of(trim(line)).0;
    if cmd == "save"@ {
        assert(cmd != "help"@ && cmd != "wifi"@ && cmd != "server"@ && cmd != "show"@) by {
            assert("save"@[1] != "help"@[1]);
            assert("save"@[0] != "wifi"@[0]);
            assert("save"@.len() != "server"@.len());
            assert("save"@[1] != "show"@[1]);
        }
        assert(cmd != "?"@ && cmd != "psk"@) by {
            assert("save"@.len() != "?"@.len());
            assert("save"@.len() != "psk"@.len());
        }
    }
}

/// Each command touches only the setting it names: `wifi` the network name,
/// `psk` the password, `server` the server, `forget` the stored checksum
/// (clearing it), `clear` everything; any other line leaves the settings
/// as they are.
pub proof fn lemma_commands_touch_only_their_setting(c: NetConfigView, line: Seq<char>)
    ensures
        ({
            let cmd = split_of(trim(line)).0;
            let n = cli_outcome(c, line).0;
            &&& n.sleep_s == c.sleep_s || cmd == "clear"@
            &&& n.ssid == c.ssid || cmd == "wifi"@ || cmd == "clear"@
            &&& n.psk == c.psk || cmd == "psk"@ || cmd == "clear"@
            &&& n.server == c.server || cmd == "server"@ || cmd == "clear"@
            &&& n.last_checksum == c.last_checksum || cmd == "forget"@ || cmd == "clear"@
            &&& cmd == "forget"@ ==> n.last_checksum.len() == 0
        }),
{
    reveal_strlit("forget");
    reveal_strlit("help");
    reveal_strlit("?");
    reveal_strlit("wifi");
    reveal_strlit("psk");
    reveal_strlit("server");
    reveal_strlit("show");
    reveal_strlit("save");
    let cmd = split_of(trim(line)).0;
    if cmd == "forget"@ {
        assert(cmd != "help"@ && cmd != "wifi"@ && cmd != "show"@ && cmd != "save"@) by {
            assert("forget"@.len() != "help"@.len());
            assert("forget"@.len() != "wifi"@.len());
            assert("forget"@.len() != "show"@.len());
            assert("forget"@.len() != "save"@.len());
        }
        assert(cmd != "?"@ && cmd != "psk"@ && cmd != "server"@) by {
            assert("forget"@.len() != "?"@.len());
            assert("forget"@.len() != "psk"@.len());
            assert("forget"@[0] != "server"@[0]);
        }
    }
}

} // verus!
