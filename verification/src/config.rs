//! The daemon's `key=value` configuration file.
use vstd::prelude::*;
use crate::settings::Settings;
use crate::text::{
    chars_eq_str, chars_of, find_first, lines, split_lines, split_once, string_from_chars,
    to_ascii_lowercase, to_lowercase, trim, trim_bounds, ascii_lowercase, unicode_lowercase,
};

verus! {

broadcast use vstd::seq_lib::group_seq_properties;

/// What a configuration holds, as mathematical values.
pub ghost struct ConfigView {
    pub vid: u16,
    pub pid: u16,
    pub plugin_dir: Seq<char>,
    pub hide_device: bool,
    pub values: Map<Seq<char>, Seq<char>>,
}

/// The daemon configuration: the controller to grab, where plugins live,
/// whether to hide the physical device, and every other key as a setting.
pub struct Config {
    pub vid: u16,
    pub pid: u16,
    pub plugin_dir: String,
    pub hide_device: bool,
    pub values: Settings,
}

impl View for Config {
    type V = ConfigView;

    open spec fn view(&self) -> ConfigView {
        ConfigView {
            vid: self.vid,
            pid: self.pid,
            plugin_dir: self.plugin_dir@,
            hide_device: self.hide_device,
            values: self.values@,
        }
    }
}

/// The configuration used where the file says nothing.
pub open spec fn default_config() -> ConfigView {
    ConfigView {
        vid: 0x045e,
        pid: 0x028e,
        plugin_dir: "/sdcard/.keyforge/plugins"@,
        hide_device: false,
        values: Map::empty(),
    }
}

/// The value of a hexadecimal digit.
pub open spec fn hex_digit(c: char) -> Option<int> {
    if '0' <= c <= '9' {
        Some(c as int - '0' as int)
    } else if 'a' <= c <= 'f' {
        Some(c as int - 'a' as int + 10)
    } else if 'A' <= c <= 'F' {
        Some(c as int - 'A' as int + 10)
    } else {
        None
    }
}

/// The number that the hexadecimal digits `d` write, if all of them are digits.
pub open spec fn hex_value(d: Seq<char>) -> Option<int>
    decreases d.len(),
{
    if d.len() == 0 {
        Some(0)
    } else {
        match (hex_value(d.drop_last()), hex_digit(d.last())) {
            (Some(v), Some(x)) => Some(v * 16 + x),
            _ => None,
        }
    }
}

/// What `u16::from_str_radix(d, 16)` accepts: an optional `+`, then at least one
/// hexadecimal digit, writing a number that fits in 16 bits.
pub open spec fn u16_from_hex(d: Seq<char>) -> Option<u16> {
    let digits = if d.len() > 1 && d[0] == '+' {
        d.drop_first()
    } else {
        d
    };
    if digits.len() == 0 {
        None
    } else {
        match hex_value(digits) {
            Some(v) => if v <= 0xffff {
                Some(v as u16)
            } else {
                None
            },
            None => None,
        }
    }
}

/// A 16-bit hexadecimal field: an optional `0x` after trimming, 0 when malformed.
/// Without the prefix the untrimmed text is read.
pub open spec fn hex16_of(s: Seq<char>) -> u16 {
    let t = trim(s);
    let d = if t.len() >= 2 && t[0] == '0' && t[1] == 'x' {
        t.skip(2)
    } else {
        s
    };
    match u16_from_hex(d) {
        Some(v) => v,
        None => 0,
    }
}

/// A boolean field: `1`, `true`, `yes` or `on` in any ASCII case, after trimming.
pub open spec fn bool_of(s: Seq<char>) -> bool {
    let l = ascii_lowercase(trim(s));
    l == "1"@ || l == "true"@ || l == "yes"@ || l == "on"@
}

/// What one line of the file does to the configuration.
pub open spec fn apply_line(c: ConfigView, line: Seq<char>) -> ConfigView {
    let t = trim(line);
    if t.len() == 0 || t[0] == '#' {
        c
    } else {
        match split_once(t, '=') {
            None => c,
            Some((k, v)) => apply_entry(c, unicode_lowercase(trim(k)), trim(v)),
        }
    }
}

/// What the entry with the (lower-cased) key `key` and value `val` makes of
/// `c`: `vid`, `pid` (hexadecimal), `plugin_dir` and `hide_device` (a boolean)
/// set their fields, every other key becomes a setting.
pub open spec fn apply_entry(c: ConfigView, key: Seq<char>, val: Seq<char>) -> ConfigView {
    if key == "vid"@ {
        ConfigView { vid: hex16_of(val), ..c }
    } else if key == "pid"@ {
        ConfigView { pid: hex16_of(val), ..c }
    } else if key == "plugin_dir"@ {
        ConfigView { plugin_dir: val, ..c }
    } else if key == "hide_device"@ {
        ConfigView { hide_device: bool_of(val), ..c }
    } else {
        ConfigView { values: c.values.insert(key, val), ..c }
    }
}

/// The configuration that the lines `ls`, read in order, make of `c`.
pub open spec fn apply_lines(c: ConfigView, ls: Seq<Seq<char>>) -> ConfigView
    decreases ls.len(),
{
    if ls.len() == 0 {
        c
    } else {
        apply_line(apply_lines(c, ls.drop_last()), ls.last())
    }
}

proof fn lemma_hex_value_nonneg(d: Seq<char>)
    ensures
        hex_value(d) matches Some(v) ==> v >= 0,
    decreases d.len(),
{
    if d.len() > 0 {
        lemma_hex_value_nonneg(d.drop_last());
    }
}

proof fn lemma_hex_value_grows(d: Seq<char>, k: int)
    requires
        0 <= k <= d.len(),
        hex_value(d.take(k)) is Some,
    ensures
        hex_value(d) matches Some(w) ==> w >= hex_value(d.take(k))->0,
    decreases d.len() - k,
{
    if k < d.len() {
        assert(d.take(k + 1).drop_last() =~= d.take(k));
        if hex_value(d.take(k + 1)) is Some {
            lemma_hex_value_nonneg(d.take(k));
            lemma_hex_value_grows(d, k + 1);
        } else {
            lemma_hex_none_extends(d, k + 1);
        }
    } else {
        assert(d.take(k) =~= d);
    }
}

proof fn lemma_hex_none_extends(d: Seq<char>, k: int)
    requires
        0 <= k <= d.len(),
        hex_value(d.take(k)) is None,
    ensures
        hex_value(d) is None,
    decreases d.len() - k,
{
    if k < d.len() {
        assert(d.take(k + 1).drop_last() =~= d.take(k));
        lemma_hex_none_extends(d, k + 1);
    } else {
        assert(d.take(k) =~= d);
    }
}

/// The value of a hexadecimal digit.
fn hex_digit_exec(c: char) -> (r: Option<u32>)
    ensures
        match hex_digit(c) {
            Some(x) => r == Some(x as u32),
            None => r is None,
        },
{
    if '0' <= c && c <= '9' {
        Some((c as u32) - ('0' as u32))
    } else if 'a' <= c && c <= 'f' {
        Some((c as u32) - ('a' as u32) + 10)
    } else if 'A' <= c && c <= 'F' {
        Some((c as u32) - ('A' as u32) + 10)
    } else {
        None
    }
}

/// `u16::from_str_radix(d, 16)`, as a value or `None`.
fn u16_from_hex_exec(d: &[char]) -> (r: Option<u16>)
    ensures
        r == u16_from_hex(d@),
{
    let start: usize = if d.len() > 1 && d[0] == '+' {
        1
    } else {
        0
    };
    let ghost digits = if d@.len() > 1 && d@[0] == '+' {
        d@.drop_first()
    } else {
        d@
    };
    assert(digits =~= d@.skip(start as int));
    if start == d.len() {
        return None;
    }
    let mut v: u32 = 0;
    let mut i: usize = start;
    while i < d.len()
        invariant
            start <= i <= d@.len(),
            start < d@.len(),
            digits == d@.skip(start as int),
            digits == (if d@.len() > 1 && d@[0] == '+' {
                d@.drop_first()
            } else {
                d@
            }),
            hex_value(digits.take(i - start)) == Some(v as int),
            v <= 0xffff,
        decreases d@.len() - i,
    {
        assert(digits.take(i - start + 1).drop_last() =~= digits.take(i - start));
        assert(digits.take(i - start + 1).last() == d@[i as int]);
        match hex_digit_exec(d[i]) {
            Some(x) => {
                assert(hex_value(digits.take(i - start + 1)) == Some(v * 16 + x));
                v = v * 16 + x;
                if v > 0xffff {
                    proof {
                        lemma_hex_value_grows(digits, i - start + 1);
                        assert(hex_value(digits) is None || hex_value(digits)->0 > 0xffff);
                    }
                    return None;
                }
            },
            None => {
                proof {
                    assert(hex_value(digits.take(i - start + 1)) is None);
                    lemma_hex_none_extends(digits, i - start + 1);
                }
                return None;
            },
        }
        i = i + 1;
    }
    assert(digits.take(i - start) =~= digits);
    Some(v as u16)
}

/// Reads a 16-bit hexadecimal field; see `hex16_of`.
pub fn parse_hex16(s: &[char]) -> (r: u16)
    ensures
        r == hex16_of(s@),
{
    let (a, b) = trim_bounds(s);
    let t = &s[a..b];
    let d = if b - a >= 2 && s[a] == '0' && s[a + 1] == 'x' {
        &s[a + 2..b]
    } else {
        s
    };
    proof {
        let tt = s@.subrange(a as int, b as int);
        assert(t@ == tt);
        if b - a >= 2 && s@[a as int] == '0' && s@[a + 1] == 'x' {
            assert(d@ =~= tt.skip(2));
        }
    }
    match u16_from_hex_exec(d) {
        Some(v) => v,
        None => 0,
    }
}

/// Reads a boolean field; see `bool_of`.
pub fn parse_bool(s: &[char]) -> (r: bool)
    ensures
        r == bool_of(s@),
{
    let (a, b) = trim_bounds(s);
    let l = to_ascii_lowercase(&s[a..b]);
    chars_eq_str(l.as_slice(), "1") || chars_eq_str(l.as_slice(), "true") || chars_eq_str(
        l.as_slice(),
        "yes",
    ) || chars_eq_str(l.as_slice(), "on")
}

/// The entry that a line of the file holds, if any.
pub open spec fn line_entry_of(line: Seq<char>) -> Option<(Seq<char>, Seq<char>)> {
    let t = trim(line);
    if t.len() == 0 || t[0] == '#' {
        None
    } else {
        match split_once(t, '=') {
            None => None,
            Some((k, v)) => Some((unicode_lowercase(trim(k)), trim(v))),
        }
    }
}

/// The lower-cased key and the value that a line of the file holds, if any.
fn line_entry(line: &[char]) -> (r: Option<(Vec<char>, Vec<char>)>)
    ensures
        match line_entry_of(line@) {
            Some((k, v)) => r matches Some((rk, rv)) && rk@ == k && rv@ == v,
            None => r is None,
        },
{
    let (a, b) = trim_bounds(line);
    let t = &line[a..b];
    if a == b || line[a] == '#' {
        return None;
    }
    match find_first(t, '=') {
        None => None,
        Some(i) => {
            let (ka, kb) = trim_bounds(&t[0..i]);
            let key = to_lowercase(&t[ka..kb]);
            let (va, vb) = trim_bounds(&t[i + 1..t.len()]);
            let mut val: Vec<char> = Vec::new();
            let mut j: usize = i + 1 + va;
            let end: usize = i + 1 + vb;
            while j < end
                invariant
                    i + 1 + va <= j <= end == i + 1 + vb <= t@.len(),
                    val@ == t@.subrange(i + 1 + va, j as int),
                decreases end - j,
            {
                val.push(t[j]);
                assert(val@ =~= t@.subrange(i + 1 + va, j + 1));
                j = j + 1;
            }
            proof {
                assert(t@ == line@.subrange(a as int, b as int));
                assert(t@.take(i as int) =~= t@.subrange(0, i as int));
                assert(t@.subrange(ka as int, kb as int) =~= t@.subrange(0, i as int).subrange(
                    ka as int,
                    kb as int,
                ));
                assert(t@.skip(i + 1) =~= t@.subrange(i + 1, t@.len() as int));
                assert(val@ =~= t@.subrange(i + 1, t@.len() as int).subrange(
                    va as int,
                    vb as int,
                ));
            }
            Some((key, val))
        },
    }
}

impl Config {
    /// The configuration used when the file is missing or says nothing.
    pub fn defaults() -> (r: Config)
        ensures
            r@ == default_config(),
    {
        Config {
            vid: 0x045e,
            pid: 0x028e,
            plugin_dir: String::from_str("/sdcard/.keyforge/plugins"),
            hide_device: false,
            values: Settings::new(),
        }
    }

    /// Applies one line of the file.
    fn apply_line(&mut self, line: &[char])
        ensures
            final(self)@ == apply_line(old(self)@, line@),
    {
        match line_entry(line) {
            None => {},
            Some((key, val)) => self.apply_entry(key.as_slice(), val.as_slice()),
        }
    }

    /// Applies the entry with the (already lower-cased) key `key` and the
    /// value `val`; see `apply_entry`.
    pub fn apply_entry(&mut self, key: &[char], val: &[char])
        ensures
            final(self)@ == apply_entry(old(self)@, key@, val@),
    {
        if chars_eq_str(key, "vid") {
            self.vid = parse_hex16(val);
        } else if chars_eq_str(key, "pid") {
            self.pid = parse_hex16(val);
        } else if chars_eq_str(key, "plugin_dir") {
            self.plugin_dir = string_from_chars(val);
        } else if chars_eq_str(key, "hide_device") {
            self.hide_device = parse_bool(val);
        } else {
            self.values.insert(string_from_chars(key), string_from_chars(val));
        }
    }

    /// The configuration that the lines `lines` describe, read in order: blank
    /// lines and lines starting with `#` (after trimming) are skipped, as are
    /// lines without `=`; the key before the first `=` is trimmed and
    /// lower-cased, the value after it trimmed. `vid`, `pid` (hexadecimal),
    /// `plugin_dir` and `hide_device` (a boolean) set their fields, every other
    /// key becomes a setting.
    pub fn from_lines(lines: &[String]) -> (r: Config)
        ensures
            r@ == apply_lines(default_config(), lines@.map_values(|l: String| l@)),
    {
        let mut cfg = Config::defaults();
        let ghost ls = lines@.map_values(|l: String| l@);
        let mut i: usize = 0;
        while i < lines.len()
            invariant
                i <= lines@.len(),
                ls == lines@.map_values(|l: String| l@),
                cfg@ == apply_lines(default_config(), ls.take(i as int)),
            decreases lines@.len() - i,
        {
            let line = chars_of(lines[i].as_str());
            cfg.apply_line(line.as_slice());
            assert(ls.take(i + 1).drop_last() =~= ls.take(i as int));
            i = i + 1;
        }
        assert(ls.take(i as int) =~= ls);
        cfg
    }

    /// The configuration that the text of a configuration file describes; see
    /// `from_lines`.
    pub fn parse(text: &str) -> (r: Config)
        ensures
            r@ == apply_lines(default_config(), lines(text@)),
    {
        let chars = chars_of(text);
        let ls = split_lines(chars.as_slice());
        let mut cfg = Config::defaults();
        let mut i: usize = 0;
        while i < ls.len()
            invariant
                i <= ls@.len() == lines(text@).len(),
                forall|k: int| 0 <= k < ls@.len() ==> (#[trigger] ls@[k])@ == lines(text@)[k],
                cfg@ == apply_lines(default_config(), lines(text@).take(i as int)),
            decreases ls@.len() - i,
        {
            cfg.apply_line(ls[i].as_slice());
            assert(lines(text@).take(i + 1).drop_last() =~= lines(text@).take(i as int));
            i = i + 1;
        }
        assert(lines(text@).take(i as int) =~= lines(text@));
        cfg
    }
}

impl Config {
    /// What a freshly read configuration asks of the running daemon: whether
    /// to take it and reload the plugins (the device, the settings or the
    /// plugin directory changed), and whether to reconnect the device (its
    /// vendor or product id changed).
    pub fn reload_plan(&self, fresh: &Config) -> (r: (bool, bool))
        ensures
            r.1 == (fresh.vid != self.vid || fresh.pid != self.pid),
            r.0 == (r.1 || fresh.values@ != self.values@ || fresh.plugin_dir@ != self.plugin_dir@),
    {
        let vid_changed = fresh.vid != self.vid || fresh.pid != self.pid;
        let settings_changed = !fresh.values.same_as(&self.values) || !(fresh.plugin_dir
            == self.plugin_dir);
        (vid_changed || settings_changed, vid_changed)
    }
}

/// The keys that configure the daemon itself.
pub open spec fn reserved_key(k: Seq<char>) -> bool {
    k == "vid"@ || k == "pid"@ || k == "plugin_dir"@ || k == "hide_device"@
}

/// The daemon's own keys never become settings that plugins see, whatever
/// the file holds.
pub proof fn lemma_reserved_keys_not_settings(c: ConfigView, ls: Seq<Seq<char>>)
    requires
        forall|k: Seq<char>| reserved_key(k) ==> !c.values.contains_key(k),
    ensures
        forall|k: Seq<char>| reserved_key(k) ==> !apply_lines(c, ls).values.contains_key(k),
    decreases ls.len(),
{
    if ls.len() > 0 {
        lemma_reserved_keys_not_settings(c, ls.drop_last());
    }
}

/// The configuration of a file is the defaults changed by its lines, so the
/// reserved keys of a parsed file are never settings.
pub proof fn lemma_parsed_reserved_keys(ls: Seq<Seq<char>>)
    ensures
        forall|k: Seq<char>| reserved_key(k) ==> !apply_lines(default_config(), ls).values.contains_key(k),
{
    lemma_reserved_keys_not_settings(default_config(), ls);
}

/// The hexadecimal digit for `d` (below 16), lower-case or `upper`-case.
pub open spec fn hex_char(d: int, upper: bool) -> char {
    if d == 0 { '0' } else if d == 1 { '1' } else if d == 2 { '2' } else if d == 3 { '3' }
    else if d == 4 { '4' } else if d == 5 { '5' } else if d == 6 { '6' } else if d == 7 { '7' }
    else if d == 8 { '8' } else if d == 9 { '9' }
    else if d == 10 { if upper { 'A' } else { 'a' } }
    else if d == 11 { if upper { 'B' } else { 'b' } }
    else if d == 12 { if upper { 'C' } else { 'c' } }
    else if d == 13 { if upper { 'D' } else { 'd' } }
    else if d == 14 { if upper { 'E' } else { 'e' } }
    else { if upper { 'F' } else { 'f' } }
}

/// The last `len` hexadecimal digits of `n`, most significant first, with
/// leading zeros.
pub open spec fn hex_digits(n: nat, len: nat, upper: bool) -> Seq<char>
    decreases len,
{
    if len == 0 {
        seq![]
    } else {
        hex_digits(n / 16, (len - 1) as nat, upper).push(hex_char((n % 16) as int, upper))
    }
}

/// Every hexadecimal digit, in either case, reads as its value.
pub proof fn lemma_hex_digit_values(d: int, upper: bool)
    requires
        0 <= d < 16,
    ensures
        hex_digit(hex_char(d, upper)) == Some(d),
{
}

/// Only hexadecimal digits read as digits: a character that reads as `v` is
/// the digit for `v` in lower or upper case, and `v` is below 16.
pub proof fn lemma_hex_digit_only_digits(c: char)
    ensures
        hex_digit(c) matches Some(v) ==> 0 <= v < 16 && (c == hex_char(v, false) || c == hex_char(
            v,
            true,
        )),
{
}

proof fn lemma_hex_digits_value(n: nat, len: nat, upper: bool)
    ensures
        hex_value(hex_digits(n, len, upper)) == Some((n as int) % vstd::arithmetic::power::pow(16, len)),
        hex_digits(n, len, upper).len() == len,
        forall|k: int| 0 <= k < len ==> !crate::text::is_white_space(#[trigger] hex_digits(n, len, upper)[k])
            && hex_digits(n, len, upper)[k] != '+',
    decreases len,
{
    vstd::arithmetic::power::lemma_pow0(16);
    if len > 0 {
        let rest = hex_digits(n / 16, (len - 1) as nat, upper);
        lemma_hex_digits_value(n / 16, (len - 1) as nat, upper);
        lemma_hex_digit_values((n % 16) as int, upper);
        let d = hex_digits(n, len, upper);
        assert(d.drop_last() =~= rest);
        let p = vstd::arithmetic::power::pow(16, (len - 1) as nat);
        vstd::arithmetic::power::lemma_pow_positive(16, (len - 1) as nat);
        vstd::arithmetic::power::lemma_pow_adds(16, (len - 1) as nat, 1);
        vstd::arithmetic::power::lemma_pow1(16);
        assert(vstd::arithmetic::power::pow(16, len) == p * 16);
        assert(((n as int) / 16) % p * 16 + (n as int) % 16 == (n as int) % (p * 16)) by {
            vstd::arithmetic::div_mod::lemma_breakdown(n as int, 16, p);
            vstd::arithmetic::div_mod::lemma_fundamental_div_mod(n as int, 16);
        }
        let c = hex_char((n % 16) as int, upper);
        assert(!crate::text::is_white_space(c) && c != '+');
    }
}

/// Reading a 16-bit field undoes writing it: for every `n`, `0x` followed by
/// its four hexadecimal digits, in lower or upper case, reads as `n`.
pub proof fn lemma_hex16_round_trip(n: u16, upper: bool)
    ensures
        hex16_of(seq!['0', 'x'] + hex_digits(n as nat, 4, upper)) == n,
{
    let d = hex_digits(n as nat, 4, upper);
    lemma_hex_digits_value(n as nat, 4, upper);
    assert(vstd::arithmetic::power::pow(16, 4) == 65536) by {
        vstd::arithmetic::power::lemma_pow1(16);
        vstd::arithmetic::power::lemma_pow_adds(16, 1, 1);
        assert(vstd::arithmetic::power::pow(16, 2) == 256);
        vstd::arithmetic::power::lemma_pow_adds(16, 2, 2);
    }
    let s = seq!['0', 'x'] + d;
    assert(crate::text::trim_start(s) == s);
    assert(s.last() == d[3]);
    assert(crate::text::trim_end(s) == s);
    assert(trim(s) == s);
    assert(s.skip(2) =~= d);
    assert(d[0] != '+');
}

} // verus!
