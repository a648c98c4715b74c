//! The configuration file.

use vstd::prelude::*;

use crate::strmap::StrMap;
use crate::text;
use crate::text::{
    chars_of, lines, lower, number16, pieces, position, push_hex4, push_text, same_text, string_of,
    to_lowercase, trimmed,
};

verus! {

/// The settings of the daemon.
#[derive(Debug, Clone)]
pub struct Config {
    pub vid: u16,
    pub pid: u16,
    pub plugin_dir: String,
    pub hide_device: bool,
    pub plugin_order: Vec<String>,
    pub values: StrMap<String>,
}

/// What a `Config` holds.
#[verifier::ext_equal]
pub struct ConfigView {
    pub vid: u16,
    pub pid: u16,
    pub plugin_dir: Seq<char>,
    pub hide_device: bool,
    pub plugin_order: Seq<Seq<char>>,
    pub values: Map<Seq<char>, Seq<char>>,
}

impl View for Config {
    type V = ConfigView;

    open spec fn view(&self) -> ConfigView {
        ConfigView {
            vid: self.vid,
            pid: self.pid,
            plugin_dir: self.plugin_dir@,
            hide_device: self.hide_device,
            plugin_order: text::string_texts(self.plugin_order@),
            values: self.values@.map_values(|v: String| v@),
        }
    }
}

/// The settings of an empty file.
pub open spec fn defaults() -> ConfigView {
    ConfigView {
        vid: 0x045e,
        pid: 0x028e,
        plugin_dir: "/sdcard/.keyforge/plugins"@,
        hide_device: false,
        plugin_order: Seq::empty(),
        values: Map::empty(),
    }
}

/// The key and the value of a line: what stands before and after the first
/// equals sign, without the whitespace around it. An empty line, one that
/// starts with `#` and one without an equals sign have none.
pub open spec fn entry(line: Seq<char>) -> Option<(Seq<char>, Seq<char>)> {
    let t = text::trim(line);
    if t.len() == 0 || t[0] == '#' {
        None
    } else {
        match text::find(t, '=') {
            Some(i) => Some((text::trim(t.take(i)), text::trim(t.skip(i + 1)))),
            None => None,
        }
    }
}

/// The number that `s` stands for: hexadecimal digits, with or without `0x`
/// before them; zero for anything else.
pub open spec fn hex16(s: Seq<char>) -> u16 {
    let t = text::trim(s);
    let digits = if t.len() >= 2 && t[0] == '0' && t[1] == 'x' {
        t.skip(2)
    } else {
        s
    };
    match text::hex_number(digits) {
        Some(n) => if n <= 0xffff {
            n as u16
        } else {
            0
        },
        None => 0,
    }
}

/// Whether `s` is a word for yes.
pub open spec fn is_yes(s: Seq<char>) -> bool {
    let t = text::ascii_lower(text::trim(s));
    t == "1"@ || t == "true"@ || t == "yes"@ || t == "on"@
}

/// The names in a list: each without the whitespace around it, the empty ones
/// left out.
pub open spec fn names(parts: Seq<Seq<char>>) -> Seq<Seq<char>>
    decreases parts.len(),
{
    if parts.len() == 0 {
        Seq::empty()
    } else {
        let before = names(parts.drop_last());
        let name = text::trim(parts.last());
        if name.len() == 0 {
            before
        } else {
            before.push(name)
        }
    }
}

/// `cfg` with `val` set for `key`.
pub open spec fn with_entry(cfg: ConfigView, key: Seq<char>, val: Seq<char>) -> ConfigView {
    if key == "vid"@ {
        ConfigView { vid: hex16(val), ..cfg }
    } else if key == "pid"@ {
        ConfigView { pid: hex16(val), ..cfg }
    } else if key == "plugin_dir"@ {
        ConfigView { plugin_dir: val, ..cfg }
    } else if key == "hide_device"@ {
        ConfigView { hide_device: is_yes(val), ..cfg }
    } else if key == "plugin_order"@ {
        ConfigView { plugin_order: names(text::split(val, ',')), ..cfg }
    } else {
        ConfigView { values: cfg.values.insert(key, val), ..cfg }
    }
}

/// `cfg` after one more line.
pub open spec fn with_line(cfg: ConfigView, line: Seq<char>) -> ConfigView {
    match entry(line) {
        Some((key, val)) => with_entry(cfg, text::lowercase(key), val),
        None => cfg,
    }
}

/// The settings that the lines of a file give.
pub open spec fn loaded(lines: Seq<Seq<char>>) -> ConfigView
    decreases lines.len(),
{
    if lines.len() == 0 {
        defaults()
    } else {
        with_line(loaded(lines.drop_last()), lines.last())
    }
}

/// The key of a line, as it is written.
pub open spec fn key_of(line: Seq<char>) -> Option<Seq<char>> {
    match entry(line) {
        Some((key, _)) => Some(key),
        None => None,
    }
}

/// Whether `line` sets `key`.
pub open spec fn sets(line: Seq<char>, key: Seq<char>) -> bool {
    match key_of(line) {
        Some(k) => text::lowercase(k) == key,
        None => false,
    }
}

/// Whether one of `lines` sets `key`.
pub open spec fn some_sets(lines: Seq<Seq<char>>, key: Seq<char>) -> bool {
    exists|i: int| 0 <= i < lines.len() && sets(#[trigger] lines[i], key)
}

/// The line that sets `key` to `id`.
pub open spec fn id_line(key: Seq<char>, id: u16) -> Seq<char> {
    key + "=0x"@ + text::hex4(id)
}

/// The line that stands for `line`, whose key is `key` and in small letters
/// `lowered`: one that sets the given id, or `line` itself.
pub open spec fn rewritten_for(
    line: Seq<char>,
    key: Seq<char>,
    lowered: Seq<char>,
    vid: u16,
    pid: u16,
) -> Seq<char> {
    if lowered == "vid"@ {
        id_line(key, vid)
    } else if lowered == "pid"@ {
        id_line(key, pid)
    } else {
        line
    }
}

/// `line` with the given ids in place of the one that it sets, if it does.
pub open spec fn rewritten(line: Seq<char>, vid: u16, pid: u16) -> Seq<char> {
    match entry(line) {
        Some((key, _)) => rewritten_for(line, key, text::lowercase(key), vid, pid),
        None => line,
    }
}

/// `lines` with the given ids: in the lines that set them, and in new lines
/// at the end where none does.
pub open spec fn with_ids(lines: Seq<Seq<char>>, vid: u16, pid: u16) -> Seq<Seq<char>> {
    let kept = lines.map_values(|line: Seq<char>| rewritten(line, vid, pid));
    let more = if some_sets(lines, "vid"@) {
        kept
    } else {
        kept.push(id_line("VID"@, vid))
    };
    if some_sets(lines, "pid"@) {
        more
    } else {
        more.push(id_line("PID"@, pid))
    }
}

/// Reads the key and the value of a line.
fn entry_of(line: &[char]) -> (r: Option<(Vec<char>, Vec<char>)>)
    ensures
        match r {
            Some((k, v)) => entry(line@) == Some((k@, v@)),
            None => entry(line@) is None,
        },
{
    let t = trimmed(line);
    if t.len() == 0 || t[0] == '#' {
        return None;
    }
    match position(t, '=') {
        Some(i) => {
            let key = &t[0..i];
            let val = &t[i + 1..t.len()];
            assert(key@ =~= t@.take(i as int));
            assert(val@ =~= t@.skip(i + 1));
            Some(
                (
                    vstd::slice::slice_to_vec(trimmed(key)),
                    vstd::slice::slice_to_vec(trimmed(val)),
                ),
            )
        },
        None => None,
    }
}

/// The number that `s` stands for, or zero.
pub fn parse_hex16(s: &str) -> (r: u16)
    ensures
        r == hex16(s@),
{
    let whole = chars_of(s);
    let t = trimmed(whole.as_slice());
    let r = if t.len() >= 2 && t[0] == '0' && t[1] == 'x' {
        let digits = &t[2..t.len()];
        assert(digits@ =~= t@.skip(2));
        number16(digits)
    } else {
        number16(whole.as_slice())
    };
    match r {
        Some(v) => v,
        None => 0,
    }
}

/// Whether `s` is a word for yes.
pub fn parse_bool(s: &str) -> (r: bool)
    ensures
        r == is_yes(s@),
{
    let whole = chars_of(s);
    let t = trimmed(whole.as_slice());
    let mut word = String::new();
    let mut i: usize = 0;
    while i < t.len()
        invariant
            i <= t@.len(),
            word@ == text::ascii_lower(t@.take(i as int)),
        decreases t@.len() - i,
    {
        word.push(lower(t[i]));
        assert(word@ =~= text::ascii_lower(t@.take(i + 1)));
        i += 1;
    }
    assert(t@.take(i as int) =~= t@);
    let w = word.as_str();
    same_text(w, "1") || same_text(w, "true") || same_text(w, "yes") || same_text(w, "on")
}

/// The names in a list with commas between them.
fn parse_names(val: &[char]) -> (r: Vec<String>)
    ensures
        text::string_texts(r@) == names(text::split(val@, ',')),
{
    let parts = pieces(val, ',');
    let ghost all = text::texts(parts@);
    let mut out: Vec<String> = Vec::new();
    let mut i: usize = 0;
    assert(text::string_texts(out@) =~= names(all.take(0)));
    while i < parts.len()
        invariant
            i <= parts@.len(),
            all == text::texts(parts@),
            text::string_texts(out@) == names(all.take(i as int)),
        decreases parts@.len() - i,
    {
        let ghost before = out@;
        let name = trimmed(parts[i].as_slice());
        assert(all.take(i + 1).drop_last() =~= all.take(i as int));
        if name.len() > 0 {
            out.push(string_of(name));
            assert(text::string_texts(out@) =~= text::string_texts(before).push(name@));
        }
        i += 1;
    }
    assert(all.take(i as int) =~= all);
    out
}

impl Config {
    /// The settings of an empty file.
    fn empty() -> (cfg: Config)
        ensures
            cfg@ == defaults(),
    {
        let cfg = Config {
            vid: 0x045e,
            pid: 0x028e,
            plugin_dir: "/sdcard/.keyforge/plugins".to_owned(),
            hide_device: false,
            plugin_order: Vec::new(),
            values: StrMap::new(),
        };
        assert(cfg@ =~= defaults());
        cfg
    }

    /// Sets `val` for `key`, which is in small letters.
    pub fn set(&mut self, key: String, val: &str)
        ensures
            final(self)@ == with_entry(old(self)@, key@, val@),
    {
        let k = key.as_str();
        if same_text(k, "vid") {
            self.vid = parse_hex16(val);
        } else if same_text(k, "pid") {
            self.pid = parse_hex16(val);
        } else if same_text(k, "plugin_dir") {
            self.plugin_dir = val.to_owned();
        } else if same_text(k, "hide_device") {
            self.hide_device = parse_bool(val);
        } else if same_text(k, "plugin_order") {
            let chars = chars_of(val);
            self.plugin_order = parse_names(chars.as_slice());
        } else {
            self.values.insert(key, val.to_owned());
        }
        assert(self@ =~= with_entry(old(self)@, key@, val@));
    }

    /// The settings that the lines of a file give.
    pub fn load(lines: &Vec<String>) -> (cfg: Config)
        ensures
            cfg@ == loaded(text::string_texts(lines@)),
    {
        let mut cfg = Config::empty();
        let ghost all = text::string_texts(lines@);
        let mut i: usize = 0;
        assert(all.take(0) =~= Seq::<Seq<char>>::empty());
        while i < lines.len()
            invariant
                i <= lines@.len(),
                all == text::string_texts(lines@),
                cfg@ == loaded(all.take(i as int)),
            decreases lines@.len() - i,
        {
            assert(all.take(i + 1).drop_last() =~= all.take(i as int));
            let line = chars_of(lines[i].as_str());
            match entry_of(line.as_slice()) {
                Some((k, v)) => {
                    let key = to_lowercase(string_of(k.as_slice()).as_str());
                    cfg.set(key, string_of(v.as_slice()).as_str());
                },
                None => {},
            }
            i += 1;
        }
        assert(all.take(i as int) =~= all);
        cfg
    }
}

/// The line that sets `key` to `id`.
fn make_id_line(key: &[char], id: u16) -> (r: Vec<char>)
    ensures
        r@ == id_line(key@, id),
{
    let mut line = vstd::slice::slice_to_vec(key);
    line.push('=');
    line.push('0');
    line.push('x');
    push_hex4(&mut line, id);
    proof {
        reveal_strlit("=0x");
        assert("=0x"@ =~= seq!['=', '0', 'x']);
        assert(line@ =~= id_line(key@, id));
    }
    line
}

proof fn lemma_sets_in_front(lines: Seq<Seq<char>>, n: int, key: Seq<char>)
    requires
        0 <= n < lines.len(),
    ensures
        some_sets(lines.take(n + 1), key) == (some_sets(lines.take(n), key) || sets(
            lines[n],
            key,
        )),
{
    let front = lines.take(n);
    let more = lines.take(n + 1);
    if some_sets(front, key) {
        let i = choose|i: int| 0 <= i < front.len() && sets(#[trigger] front[i], key);
        assert(sets(more[i], key));
    }
    if sets(lines[n], key) {
        assert(sets(more[n], key));
    }
    if some_sets(more, key) {
        let i = choose|i: int| 0 <= i < more.len() && sets(#[trigger] more[i], key);
        if i < n {
            assert(sets(front[i], key));
        }
    }
}

/// The line that stands for `line`, whose key is `key` and in small letters
/// `lowered`.
pub fn rewrite_line(line: &[char], key: &[char], lowered: &str, vid: u16, pid: u16) -> (r: Vec<
    char,
>)
    ensures
        r@ == rewritten_for(line@, key@, lowered@, vid, pid),
{
    if same_text(lowered, "vid") {
        make_id_line(key, vid)
    } else if same_text(lowered, "pid") {
        make_id_line(key, pid)
    } else {
        vstd::slice::slice_to_vec(line)
    }
}

/// `lines` with the given ids.
fn set_ids(lines: &Vec<Vec<char>>, vid: u16, pid: u16) -> (r: Vec<Vec<char>>)
    ensures
        text::texts(r@) == with_ids(text::texts(lines@), vid, pid),
{
    let ghost all = text::texts(lines@);
    let ghost rewrite = |line: Seq<char>| rewritten(line, vid, pid);
    let mut out: Vec<Vec<char>> = Vec::new();
    let mut saw_vid = false;
    let mut saw_pid = false;
    let mut i: usize = 0;
    assert(text::texts(out@) =~= all.take(0).map_values(rewrite));
    while i < lines.len()
        invariant
            i <= lines@.len(),
            all == text::texts(lines@),
            rewrite == (|line: Seq<char>| rewritten(line, vid, pid)),
            text::texts(out@) == all.take(i as int).map_values(rewrite),
            saw_vid == some_sets(all.take(i as int), "vid"@),
            saw_pid == some_sets(all.take(i as int), "pid"@),
        decreases lines@.len() - i,
    {
        let ghost before = out@;
        let line = lines[i].as_slice();
        proof {
            reveal_strlit("vid");
            reveal_strlit("pid");
            assert("vid"@[0] != "pid"@[0]);
            lemma_sets_in_front(all, i as int, "vid"@);
            lemma_sets_in_front(all, i as int, "pid"@);
        }
        let new: Vec<char> = match entry_of(line) {
            Some((k, _)) => {
                let key = to_lowercase(string_of(k.as_slice()).as_str());
                if same_text(key.as_str(), "vid") {
                    saw_vid = true;
                } else if same_text(key.as_str(), "pid") {
                    saw_pid = true;
                }
                rewrite_line(line, k.as_slice(), key.as_str(), vid, pid)
            },
            None => vstd::slice::slice_to_vec(line),
        };
        assert(new@ == rewritten(line@, vid, pid));
        out.push(new);
        proof {
            assert(text::texts(out@) =~= text::texts(before).push(new@));
            assert(all.take(i + 1).map_values(rewrite) =~= all.take(i as int).map_values(
                rewrite,
            ).push(new@));
        }
        i += 1;
    }
    assert(all.take(i as int) =~= all);
    if !saw_vid {
        let ghost before = out@;
        let key = chars_of("VID");
        let line = make_id_line(key.as_slice(), vid);
        out.push(line);
        assert(text::texts(out@) =~= text::texts(before).push(line@));
    }
    if !saw_pid {
        let ghost before = out@;
        let key = chars_of("PID");
        let line = make_id_line(key.as_slice(), pid);
        out.push(line);
        assert(text::texts(out@) =~= text::texts(before).push(line@));
    }
    out
}

impl Config {
    /// The text of a configuration file with the given ids in place of those
    /// that `raw` sets: comments, the case of keys and every other line stay
    /// as they are.
    pub fn persist_source(raw: &str, vid: u16, pid: u16) -> (r: String)
        ensures
            r@ == text::text_of(with_ids(text::lines_of(raw@), vid, pid)),
    {
        let chars = chars_of(raw);
        let read = lines(chars.as_slice());
        let kept = set_ids(&read, vid, pid);
        let ghost all = text::texts(kept@);
        let mut out = String::new();
        let mut i: usize = 0;
        assert(all.skip(0) =~= all);
        assert(out@ + text::text_of(all) =~= text::text_of(all));
        while i < kept.len()
            invariant
                i <= kept@.len(),
                all == text::texts(kept@),
                out@ + text::text_of(all.skip(i as int)) == text::text_of(all),
            decreases kept@.len() - i,
        {
            let ghost before = out@;
            let ghost rest = all.skip(i as int);
            push_text(&mut out, kept[i].as_slice());
            out.push('\n');
            proof {
                assert(rest[0] == kept@[i as int]@);
                assert(rest.drop_first() =~= all.skip(i + 1));
                assert(out@ + text::text_of(all.skip(i + 1)) =~= before + text::text_of(rest));
            }
            i += 1;
        }
        assert(all.skip(i as int) =~= Seq::<Seq<char>>::empty());
        assert(out@ =~= out@ + text::text_of(all.skip(i as int)));
        out
    }
}

proof fn lemma_literals()
    ensures
        "vid"@ == seq!['v', 'i', 'd'],
        "pid"@ == seq!['p', 'i', 'd'],
        "vid"@ != "pid"@,
        "VID"@ == seq!['V', 'I', 'D'],
        "PID"@ == seq!['P', 'I', 'D'],
        text::lowercase("VID"@) == "vid"@,
        text::lowercase("PID"@) == "pid"@,
        "=0x"@ == seq!['=', '0', 'x'],
{
    reveal_strlit("vid");
    reveal_strlit("pid");
    reveal_strlit("VID");
    reveal_strlit("PID");
    reveal_strlit("=0x");
    assert("vid"@ =~= seq!['v', 'i', 'd']);
    assert("pid"@ =~= seq!['p', 'i', 'd']);
    assert("VID"@ =~= seq!['V', 'I', 'D']);
    assert("PID"@ =~= seq!['P', 'I', 'D']);
    assert("=0x"@ =~= seq!['=', '0', 'x']);
    assert("vid"@[0] != "pid"@[0]);
    assert(text::ascii_lower("VID"@) =~= "vid"@);
    assert(text::ascii_lower("PID"@) =~= "pid"@);
}

/// A text that can stand as the key of a line.
pub open spec fn plain_key(key: Seq<char>) -> bool {
    &&& key.len() > 0
    &&& !text::is_space(key[0])
    &&& !text::is_space(key.last())
    &&& key[0] != '#'
    &&& text::lacks(key, '=')
}

proof fn lemma_entry_key(line: Seq<char>)
    ensures
        match entry(line) {
            Some((key, _)) => {
                &&& key.len() > 0 ==> plain_key(key)
                &&& text::lacks(line, '\n') ==> text::lacks(key, '\n')
            },
            None => true,
        },
{
    let t = text::trim(line);
    text::lemma_trim(line);
    match entry(line) {
        Some((key, _)) => {
            text::lemma_find(t, '=');
            let i = text::find(t, '=')->0;
            let left = t.take(i);
            text::lemma_trim(left);
            assert(text::lacks(left, '='));
            if text::lacks(line, '\n') {
                assert(text::lacks(t, '\n'));
                assert forall|j: int| 0 <= j < left.len() implies #[trigger] left[j] != '\n' by {
                    assert(left[j] == t[j]);
                }
                assert(text::lacks(left, '\n'));
            }
            if i > 0 {
                assert(left[0] == t[0]);
            }
        },
        None => {},
    }
}

proof fn lemma_id_line(key: Seq<char>, id: u16)
    requires
        plain_key(key),
    ensures
        entry(id_line(key, id)) matches Some((k, v)) && k == key && hex16(v) == id,
        text::lacks(key, '\n') ==> text::lacks(id_line(key, id), '\n'),
{
    lemma_literals();
    text::lemma_hex4(id);
    let line = id_line(key, id);
    let val = seq!['0', 'x'] + text::hex4(id);
    let n = key.len() as int;
    assert(line =~= key.push('=') + val);
    assert(line.last() == text::hex4(id)[3]);
    assert(line[0] == key[0]);
    assert(text::trim(line) == line);
    assert forall|j: int| 0 <= j < n implies line[j] != '=' by {
        assert(line[j] == key[j]);
    }
    text::lemma_find_at(line, '=', n);
    assert(line.take(n) =~= key);
    assert(line.skip(n + 1) =~= val);
    assert(val.last() == text::hex4(id)[3]);
    assert(text::trim(val) == val);
    assert(val.skip(2) =~= text::hex4(id));
    if text::lacks(key, '\n') {
        assert forall|j: int| 0 <= j < line.len() implies #[trigger] line[j] != '\n' by {
            if j < n {
                assert(line[j] == key[j]);
            } else if j >= n + 3 {
                assert(line[j] == text::hex4(id)[j - n - 3]);
            }
        }
    }
}

proof fn lemma_new_id_lines(vid: u16, pid: u16)
    ensures
        text::lacks(id_line("VID"@, vid), '\n'),
        text::lacks(id_line("PID"@, pid), '\n'),
        forall|cfg: ConfigView| #[trigger]
            with_line(cfg, id_line("VID"@, vid)) == (ConfigView { vid, ..cfg }),
        forall|cfg: ConfigView| #[trigger]
            with_line(cfg, id_line("PID"@, pid)) == (ConfigView { pid, ..cfg }),
{
    lemma_literals();
    lemma_id_line("VID"@, vid);
    lemma_id_line("PID"@, pid);
}

proof fn lemma_rewritten(line: Seq<char>, vid: u16, pid: u16)
    ensures
        text::lacks(line, '\n') ==> text::lacks(rewritten(line, vid, pid), '\n'),
        forall|cfg: ConfigView| #[trigger]
            with_line(cfg, rewritten(line, vid, pid)) == (if sets(line, "vid"@) {
                ConfigView { vid, ..cfg }
            } else if sets(line, "pid"@) {
                ConfigView { pid, ..cfg }
            } else {
                with_line(cfg, line)
            }),
{
    lemma_literals();
    lemma_entry_key(line);
    match entry(line) {
        Some((key, _)) => {
            if sets(line, "vid"@) || sets(line, "pid"@) {
                assert(key.len() > 0) by {
                    if key.len() == 0 {
                        assert(text::lowercase(key).len() == 0);
                    }
                }
                lemma_id_line(key, vid);
                lemma_id_line(key, pid);
            }
        },
        None => {},
    }
}

proof fn lemma_loaded_rewritten(lines: Seq<Seq<char>>, vid: u16, pid: u16)
    ensures
        ({
            let kept = lines.map_values(|line: Seq<char>| rewritten(line, vid, pid));
            let cfg = loaded(lines);
            loaded(kept) == ConfigView {
                vid: if some_sets(lines, "vid"@) {
                    vid
                } else {
                    cfg.vid
                },
                pid: if some_sets(lines, "pid"@) {
                    pid
                } else {
                    cfg.pid
                },
                ..cfg
            }
        }),
    decreases lines.len(),
{
    let rewrite = |line: Seq<char>| rewritten(line, vid, pid);
    let kept = lines.map_values(rewrite);
    if lines.len() != 0 {
        let n = lines.len() - 1;
        let front = lines.drop_last();
        lemma_loaded_rewritten(front, vid, pid);
        lemma_literals();
        lemma_rewritten(lines.last(), vid, pid);
        assert(kept.drop_last() =~= front.map_values(rewrite));
        assert(lines.take(n) =~= front);
        assert(lines.take(n + 1) =~= lines);
        lemma_sets_in_front(lines, n, "vid"@);
        lemma_sets_in_front(lines, n, "pid"@);
        assert(kept.last() == rewritten(lines.last(), vid, pid));
    }
}

proof fn lemma_same_entries(a: Seq<Seq<char>>, b: Seq<Seq<char>>)
    requires
        a.len() == b.len(),
        forall|i: int| 0 <= i < a.len() ==> entry(#[trigger] a[i]) == entry(b[i]),
    ensures
        loaded(a) == loaded(b),
    decreases a.len(),
{
    if a.len() != 0 {
        let x = a.drop_last();
        let y = b.drop_last();
        assert forall|i: int| 0 <= i < x.len() implies entry(#[trigger] x[i]) == entry(y[i]) by {
            assert(x[i] == a[i]);
        }
        lemma_same_entries(x, y);
        assert(a[a.len() - 1] == a.last());
    }
}

/// Reading a persisted file gives the persisted ids, and for every other
/// setting what reading the file gave before.
pub proof fn law_persisted_ids_are_loaded(raw: Seq<char>, vid: u16, pid: u16)
    ensures
        loaded(text::lines_of(text::text_of(with_ids(text::lines_of(raw), vid, pid)))) == (
        ConfigView { vid, pid, ..loaded(text::lines_of(raw)) }),
{
    let lines = text::lines_of(raw);
    let kept = lines.map_values(|line: Seq<char>| rewritten(line, vid, pid));
    let all = with_ids(lines, vid, pid);
    text::lemma_lines_lack_feeds(raw);
    lemma_new_id_lines(vid, pid);
    assert forall|i: int| 0 <= i < all.len() implies text::lacks(#[trigger] all[i], '\n') by {
        if i < lines.len() {
            assert(all[i] == rewritten(lines[i], vid, pid));
            lemma_rewritten(lines[i], vid, pid);
        }
    }
    text::lemma_lines_read_back(all);
    let read = text::lines_of(text::text_of(all));
    assert forall|i: int| 0 <= i < read.len() implies entry(#[trigger] read[i]) == entry(
        all[i],
    ) by {
        text::lemma_trim_strip_cr(all[i]);
    }
    lemma_same_entries(read, all);
    lemma_loaded_rewritten(lines, vid, pid);
    let more = if some_sets(lines, "vid"@) {
        kept
    } else {
        kept.push(id_line("VID"@, vid))
    };
    let before = loaded(lines);
    if !some_sets(lines, "vid"@) {
        assert(more.drop_last() =~= kept);
        assert(loaded(more) == with_line(loaded(kept), id_line("VID"@, vid)));
    }
    assert(loaded(more).vid == vid);
    if !some_sets(lines, "pid"@) {
        assert(all.drop_last() =~= more);
        assert(loaded(all) == with_line(loaded(more), id_line("PID"@, pid)));
    } else {
        assert(all == more);
    }
    assert(loaded(all).pid == pid);
    assert(loaded(all) =~= ConfigView { vid, pid, ..before });
}

/// Persisting keeps every line that sets neither id, in its place, and writes
/// the ids that were set under the keys that set them.
pub proof fn law_other_lines_are_kept(lines: Seq<Seq<char>>, vid: u16, pid: u16, i: int)
    requires
        0 <= i < lines.len(),
    ensures
        lines.len() <= with_ids(lines, vid, pid).len() <= lines.len() + 2,
        !sets(lines[i], "vid"@) && !sets(lines[i], "pid"@) ==> with_ids(lines, vid, pid)[i]
            == lines[i],
        sets(lines[i], "vid"@) || sets(lines[i], "pid"@) ==> {
            &&& key_of(with_ids(lines, vid, pid)[i]) is Some
            &&& key_of(with_ids(lines, vid, pid)[i]) == key_of(lines[i])
        },
{
    lemma_literals();
    lemma_entry_key(lines[i]);
    assert(with_ids(lines, vid, pid)[i] == rewritten(lines[i], vid, pid));
    if sets(lines[i], "vid"@) || sets(lines[i], "pid"@) {
        let key = key_of(lines[i])->0;
        assert(key.len() > 0) by {
            if key.len() == 0 {
                assert(text::lowercase(key).len() == 0);
            }
        }
        lemma_id_line(key, vid);
        lemma_id_line(key, pid);
    }
}

/// The keys that are settings of the daemon are not among the values that
/// scripts see.
pub proof fn law_settings_are_not_values(lines: Seq<Seq<char>>)
    ensures
        ({
            let values = loaded(lines).values;
            &&& !values.contains_key("vid"@)
            &&& !values.contains_key("pid"@)
            &&& !values.contains_key("plugin_dir"@)
            &&& !values.contains_key("hide_device"@)
            &&& !values.contains_key("plugin_order"@)
        }),
    decreases lines.len(),
{
    if lines.len() != 0 {
        law_settings_are_not_values(lines.drop_last());
    }
}

/// A line gives the text before its first equals sign as key and the text
/// behind it as value, both character for character, without the whitespace
/// around them.
pub proof fn law_line_is_read(
    lead: Seq<char>,
    key: Seq<char>,
    before: Seq<char>,
    behind: Seq<char>,
    val: Seq<char>,
    tail: Seq<char>,
)
    requires
        text::all_space(lead) && text::all_space(before),
        text::all_space(behind) && text::all_space(tail),
        key.len() > 0 ==> plain_key(key),
        text::clean(val),
    ensures
        entry(lead + key + before + seq!['='] + behind + val + tail) == Some((key, val)),
{
    let none = Seq::<char>::empty();
    let line = lead + key + before + seq!['='] + behind + val + tail;
    let a = if key.len() == 0 {
        none
    } else {
        key + before
    };
    let b = if val.len() == 0 {
        none
    } else {
        behind + val
    };
    let pre = if key.len() == 0 {
        lead + before
    } else {
        lead
    };
    let post = if val.len() == 0 {
        behind + tail
    } else {
        tail
    };
    let core = a + seq!['='] + b;
    assert(line =~= pre + core + post);
    assert(text::all_space(pre));
    assert(text::all_space(post));
    assert(core[0] == if key.len() == 0 {
        '='
    } else {
        key[0]
    });
    assert(core.last() == if val.len() == 0 {
        '='
    } else {
        val.last()
    });
    text::law_trim_takes_the_ends(pre, core, post);
    let n = a.len() as int;
    assert forall|j: int| 0 <= j < n implies core[j] != '=' by {
        if j < key.len() {
            assert(core[j] == key[j]);
        } else {
            assert(core[j] == before[j - key.len()]);
        }
    }
    text::lemma_find_at(core, '=', n);
    assert(core.take(n) =~= a);
    assert(core.skip(n + 1) =~= b);
    if key.len() > 0 {
        text::law_trim_takes_the_ends(none, key, before);
        assert(none + key + before =~= a);
    }
    if val.len() > 0 {
        text::law_trim_takes_the_ends(behind, val, none);
        assert(behind + val + none =~= b);
    }
    assert(key.len() == 0 ==> key =~= none);
    assert(val.len() == 0 ==> val =~= none);
}

/// A comment, an empty line and a line without an equals sign give nothing.
pub proof fn law_other_lines_give_nothing(lead: Seq<char>, rest: Seq<char>, line: Seq<char>)
    requires
        text::all_space(lead),
    ensures
        entry(lead) is None,
        entry(lead + seq!['#'] + rest) is None,
        text::lacks(line, '=') ==> entry(line) is None,
{
    let none = Seq::<char>::empty();
    text::law_trim_takes_the_ends(lead, none, none);
    assert(lead + none + none =~= lead);
    let comment = seq!['#'] + rest;
    let whole = lead + seq!['#'] + rest;
    assert(whole =~= lead + comment);
    text::lemma_trim(comment);
    lemma_trim_lead(lead, comment);
    assert(comment[0] == '#');
    if text::lacks(line, '=') {
        text::lemma_trim(line);
        assert(text::lacks(text::trim(line), '='));
        text::lemma_not_found(text::trim(line), '=');
    }
}

proof fn lemma_trim_lead(lead: Seq<char>, s: Seq<char>)
    requires
        text::all_space(lead),
    ensures
        text::trim(lead + s) == text::trim(s),
    decreases lead.len(),
{
    if lead.len() == 0 {
        assert(lead + s =~= s);
    } else {
        let rest = lead.drop_first();
        assert forall|i: int| 0 <= i < rest.len() implies text::is_space(#[trigger] rest[i]) by {
            assert(rest[i] == lead[i + 1]);
        }
        assert((lead + s).drop_first() =~= rest + s);
        assert(text::is_space(lead[0]));
        lemma_trim_lead(rest, s);
    }
}

/// Whether `key` is one of the five settings of the daemon.
pub open spec fn is_setting(key: Seq<char>) -> bool {
    key == "vid"@ || key == "pid"@ || key == "plugin_dir"@ || key == "hide_device"@ || key
        == "plugin_order"@
}

proof fn lemma_settings_differ()
    ensures
        "vid"@ != "pid"@,
        "vid"@.len() == 3 && "pid"@.len() == 3,
        "plugin_dir"@.len() == 10,
        "hide_device"@.len() == 11,
        "plugin_order"@.len() == 12,
{
    reveal_strlit("vid");
    reveal_strlit("pid");
    reveal_strlit("plugin_dir");
    reveal_strlit("hide_device");
    reveal_strlit("plugin_order");
    assert("vid"@[0] != "pid"@[0]);
}

/// What the settings say of `key` where the last line that sets it gives `val`:
/// for a key of scripts the value itself, character for character.
pub open spec fn says(cfg: ConfigView, key: Seq<char>, val: Seq<char>) -> bool {
    &&& key == "vid"@ ==> cfg.vid == hex16(val)
    &&& key == "pid"@ ==> cfg.pid == hex16(val)
    &&& key == "plugin_dir"@ ==> cfg.plugin_dir == val
    &&& key == "hide_device"@ ==> cfg.hide_device == is_yes(val)
    &&& key == "plugin_order"@ ==> cfg.plugin_order == names(text::split(val, ','))
    &&& !is_setting(key) ==> cfg.values.contains_key(key) && cfg.values[key] == val
}

/// The last line that sets a key decides what is loaded for it.
pub proof fn law_last_line_decides(
    lines: Seq<Seq<char>>,
    i: int,
    key: Seq<char>,
    val: Seq<char>,
)
    requires
        0 <= i < lines.len(),
        entry(lines[i]) == Some((key, val)),
        forall|j: int|
            i < j < lines.len() ==> !sets(#[trigger] lines[j], text::lowercase(key)),
    ensures
        says(loaded(lines), text::lowercase(key), val),
    decreases lines.len(),
{
    lemma_settings_differ();
    let front = lines.drop_last();
    if i < lines.len() - 1 {
        assert(front[i] == lines[i]);
        assert forall|j: int| i < j < front.len() implies !sets(
            #[trigger] front[j],
            text::lowercase(key),
        ) by {
            assert(front[j] == lines[j]);
        }
        law_last_line_decides(front, i, key, val);
        assert(!sets(lines[lines.len() - 1], text::lowercase(key)));
    }
}

/// A key of scripts that no line sets has no value, and a setting that no line
/// sets is as in an empty file.
pub proof fn law_unset_keys(lines: Seq<Seq<char>>, key: Seq<char>)
    requires
        !some_sets(lines, key),
    ensures
        !is_setting(key) ==> !loaded(lines).values.contains_key(key),
        key == "vid"@ ==> loaded(lines).vid == 0x045e,
        key == "pid"@ ==> loaded(lines).pid == 0x028e,
        key == "plugin_dir"@ ==> loaded(lines).plugin_dir == "/sdcard/.keyforge/plugins"@,
        key == "hide_device"@ ==> !loaded(lines).hide_device,
        key == "plugin_order"@ ==> loaded(lines).plugin_order.len() == 0,
    decreases lines.len(),
{
    lemma_settings_differ();
    if lines.len() != 0 {
        let front = lines.drop_last();
        assert(!some_sets(front, key)) by {
            if some_sets(front, key) {
                let i = choose|i: int| 0 <= i < front.len() && sets(#[trigger] front[i], key);
                assert(sets(lines[i], key));
            }
        }
        law_unset_keys(front, key);
        assert(!sets(lines[lines.len() - 1], key));
    }
}

/// A line `key=value` whose key is none of the settings gives scripts, under the
/// key in small letters, the text behind the first equals sign without the
/// whitespace around it, character for character, unless a later line sets the
/// key again.
pub proof fn law_values_are_kept_as_written(
    lines: Seq<Seq<char>>,
    i: int,
    lead: Seq<char>,
    key: Seq<char>,
    before: Seq<char>,
    behind: Seq<char>,
    val: Seq<char>,
    tail: Seq<char>,
)
    requires
        0 <= i < lines.len(),
        text::all_space(lead) && text::all_space(before),
        text::all_space(behind) && text::all_space(tail),
        key.len() > 0 ==> plain_key(key),
        text::clean(val),
        lines[i] == lead + key + before + seq!['='] + behind + val + tail,
        !is_setting(text::lowercase(key)),
        forall|j: int|
            i < j < lines.len() ==> !sets(#[trigger] lines[j], text::lowercase(key)),
    ensures
        loaded(lines).values.contains_key(text::lowercase(key)),
        loaded(lines).values[text::lowercase(key)] == val,
{
    law_line_is_read(lead, key, before, behind, val, tail);
    law_last_line_decides(lines, i, key, val);
}

/// One more line leaves every key as it was that it does not set: the values of
/// scripts as well as the settings.
pub proof fn law_other_keys_keep_their_values(
    lines: Seq<Seq<char>>,
    line: Seq<char>,
    key: Seq<char>,
)
    requires
        !sets(line, key),
    ensures
        ({
            let was = loaded(lines);
            let is = loaded(lines.push(line));
            &&& is.values.contains_key(key) == was.values.contains_key(key)
            &&& was.values.contains_key(key) ==> is.values[key] == was.values[key]
            &&& key == "vid"@ ==> is.vid == was.vid
            &&& key == "pid"@ ==> is.pid == was.pid
            &&& key == "plugin_dir"@ ==> is.plugin_dir == was.plugin_dir
            &&& key == "hide_device"@ ==> is.hide_device == was.hide_device
            &&& key == "plugin_order"@ ==> is.plugin_order == was.plugin_order
        }),
{
    lemma_settings_differ();
    assert(lines.push(line).drop_last() =~= lines);
}

/// What is set directly is set as given: under a key of scripts the value
/// itself, and every other key keeps what it had.
pub proof fn law_set_values(cfg: ConfigView, key: Seq<char>, val: Seq<char>, other: Seq<char>)
    ensures
        says(with_entry(cfg, key, val), key, val),
        other != key ==> with_entry(cfg, key, val).values.contains_key(other)
            == cfg.values.contains_key(other),
        other != key && cfg.values.contains_key(other) ==> with_entry(
            cfg,
            key,
            val,
        ).values[other] == cfg.values[other],
        key != "vid"@ ==> with_entry(cfg, key, val).vid == cfg.vid,
        key != "pid"@ ==> with_entry(cfg, key, val).pid == cfg.pid,
        key != "plugin_dir"@ ==> with_entry(cfg, key, val).plugin_dir == cfg.plugin_dir,
        key != "hide_device"@ ==> with_entry(cfg, key, val).hide_device == cfg.hide_device,
        key != "plugin_order"@ ==> with_entry(cfg, key, val).plugin_order == cfg.plugin_order,
        is_setting(key) ==> with_entry(cfg, key, val).values == cfg.values,
{
    lemma_settings_differ();
}

/// An id is written behind its key as `=0x` and four digits in small letters,
/// the highest first; a line keeps its key as it is written.
pub proof fn law_persisted_lines(key: Seq<char>, id: u16, vid: u16, pid: u16, line: Seq<char>)
    ensures
        ({
            let written = id_line(key, id);
            let n = key.len() as int;
            let digits = "0123456789abcdef"@;
            &&& written.len() == n + 7
            &&& written.take(n) == key
            &&& written[n] == '='
            &&& written[n + 1] == '0'
            &&& written[n + 2] == 'x'
            &&& written[n + 3] == digits[(id / 4096) as int]
            &&& written[n + 4] == digits[(id / 256 % 16) as int]
            &&& written[n + 5] == digits[(id / 16 % 16) as int]
            &&& written[n + 6] == digits[(id % 16) as int]
        }),
        with_ids(Seq::empty(), vid, pid) == seq![
            id_line(seq!['V', 'I', 'D'], vid),
            id_line(seq!['P', 'I', 'D'], pid),
        ],
        match key_of(line) {
            Some(k) => {
                &&& text::lowercase(k) == "vid"@ ==> rewritten(line, vid, pid) == id_line(k, vid)
                &&& text::lowercase(k) == "pid"@ ==> rewritten(line, vid, pid) == id_line(k, pid)
            },
            None => rewritten(line, vid, pid) == line,
        },
{
    lemma_settings_differ();
    reveal_strlit("=0x");
    reveal_strlit("VID");
    reveal_strlit("PID");
    assert("VID"@ =~= seq!['V', 'I', 'D']);
    assert("PID"@ =~= seq!['P', 'I', 'D']);
    assert(id / 4096 < 16) by (bit_vector);
    text::law_digits((id / 4096) as int, 'a');
    text::law_digits((id / 256 % 16) as int, 'a');
    text::law_digits((id / 16 % 16) as int, 'a');
    text::law_digits((id % 16) as int, 'a');
    assert(id_line(key, id).take(key.len() as int) =~= key);
    let none = Seq::<Seq<char>>::empty();
    assert(with_ids(none, vid, pid) =~= seq![id_line("VID"@, vid), id_line("PID"@, pid)]);
}

/// A key in ASCII is found in small letters; one in small letters already is
/// found as it is written.
pub proof fn law_keys_are_lowered(key: Seq<char>, i: int)
    requires
        vstd::utf8::is_ascii_chars(key),
        0 <= i < key.len(),
    ensures
        text::lowercase(key).len() == key.len(),
        65 <= key[i] as u32 <= 90 ==> text::lowercase(key)[i] as u32 == key[i] as u32 + 32,
        (key[i] as u32) < 65 || key[i] as u32 > 90 ==> text::lowercase(key)[i] == key[i],
{
}

proof fn lemma_digits_are_plain(s: Seq<char>)
    requires
        text::hex_digits(s) is Some,
    ensures
        forall|i: int|
            0 <= i < s.len() ==> text::hex_digit(#[trigger] s[i]) is Some && !text::is_space(s[i])
                && s[i] != '+' && s[i] != 'x',
    decreases s.len(),
{
    if s.len() != 0 {
        let front = s.drop_last();
        lemma_digits_are_plain(front);
        assert forall|i: int| 0 <= i < s.len() implies text::hex_digit(#[trigger] s[i]) is Some
            && !text::is_space(s[i]) && s[i] != '+' && s[i] != 'x' by {
            if i < front.len() {
                assert(s[i] == front[i]);
            }
        }
    }
}

/// Hexadecimal digits, alone or behind `0x` and whitespace, give their number
/// where it fits 16 bits, and zero where it does not.
pub proof fn law_ids_are_read(digits: Seq<char>, before: Seq<char>, behind: Seq<char>)
    requires
        digits.len() > 0,
        text::hex_digits(digits) is Some,
        text::all_space(before),
        text::all_space(behind),
    ensures
        ({
            let n = text::hex_digits(digits)->0;
            let id = if n <= 65535 {
                n as int
            } else {
                0
            };
            &&& hex16(digits) == id
            &&& hex16(before + (seq!['0', 'x'] + digits) + behind) == id
        }),
{
    lemma_digits_are_plain(digits);
    let none = Seq::<char>::empty();
    assert(text::hex_digit(digits[0]) is Some);
    assert(text::hex_digit(digits[digits.len() - 1]) is Some);
    text::law_trim_takes_the_ends(none, digits, none);
    assert(none + digits + none =~= digits);
    assert(digits.len() >= 2 ==> text::hex_digit(digits[1]) is Some);
    let full = seq!['0', 'x'] + digits;
    assert(full.last() == digits.last());
    text::law_trim_takes_the_ends(before, full, behind);
    assert(full.skip(2) =~= digits);
}

/// Digits count by place: each further digit multiplies the number before it
/// by sixteen.
pub proof fn law_digits_count_by_place(s: Seq<char>, c: char)
    ensures
        text::hex_digits(Seq::empty()) == Some(0nat),
        text::hex_digits(s) is Some && text::hex_digit(c) is Some ==> text::hex_digits(s.push(c))
            == Some(16 * text::hex_digits(s)->0 + text::hex_digit(c)->0),
        text::hex_digit(c) is None ==> text::hex_digits(s.push(c)) is None,
{
    assert(s.push(c).drop_last() =~= s);
}

/// The words `1`, `true`, `yes` and `on` mean yes, in any case of letters and
/// with whitespace around them.
pub proof fn law_words_for_yes(before: Seq<char>, word: Seq<char>, behind: Seq<char>)
    requires
        text::all_space(before),
        text::all_space(behind),
        text::clean(word),
    ensures
        is_yes(before + word + behind) <==> {
            let small = text::ascii_lower(word);
            small == seq!['1'] || small == seq!['t', 'r', 'u', 'e'] || small == seq!['y', 'e', 's']
                || small == seq!['o', 'n']
        },
{
    text::law_trim_takes_the_ends(before, word, behind);
    reveal_strlit("1");
    reveal_strlit("true");
    reveal_strlit("yes");
    reveal_strlit("on");
    assert("1"@ =~= seq!['1']);
    assert("true"@ =~= seq!['t', 'r', 'u', 'e']);
    assert("yes"@ =~= seq!['y', 'e', 's']);
    assert("on"@ =~= seq!['o', 'n']);
}

/// A list of names is read name by name: what stands between commas, without
/// the whitespace around it; what is empty then is no name.
pub proof fn law_names_are_read(
    parts: Seq<Seq<char>>,
    before: Seq<char>,
    name: Seq<char>,
    behind: Seq<char>,
)
    requires
        text::all_space(before),
        text::all_space(behind),
        text::clean(name),
    ensures
        names(Seq::empty()).len() == 0,
        names(parts.push(before + name + behind)) == (if name.len() == 0 {
            names(parts)
        } else {
            names(parts).push(name)
        }),
        parts.len() > 0 && (forall|i: int|
            0 <= i < parts.len() ==> text::lacks(#[trigger] parts[i], ',')) ==> names(
            text::split(text::joined(parts, ','), ','),
        ) == names(parts),
{
    text::law_trim_takes_the_ends(before, name, behind);
    assert(parts.push(before + name + behind).drop_last() =~= parts);
    if parts.len() > 0 && (forall|i: int|
        0 <= i < parts.len() ==> text::lacks(#[trigger] parts[i], ',')) {
        text::law_split_undoes_joining(parts, ',');
    }
}

proof fn lemma_no_number(s: Seq<char>, i: int)
    requires
        0 <= i < s.len(),
        text::hex_digit(s[i]) is None,
    ensures
        text::hex_digits(s) is None,
    decreases s.len(),
{
    if i < s.len() - 1 {
        assert(s.drop_last()[i] == s[i]);
        lemma_no_number(s.drop_last(), i);
    }
}

proof fn lemma_no_signed_number(s: Seq<char>, i: int)
    requires
        0 <= i < s.len(),
        text::hex_digit(s[i]) is None,
        i == 0 ==> s[i] != '+',
    ensures
        text::hex_number(s) is None,
{
    if s[0] == '+' {
        assert(s.drop_first()[i - 1] == s[i]);
        lemma_no_number(s.drop_first(), i - 1);
    } else {
        lemma_no_number(s, i);
    }
}

/// A text stands for the id zero where it holds anything but hexadecimal digits,
/// a plus sign before them left aside, be it `0X` or whitespace; only `0x` may
/// stand before them, with whitespace around the whole.
pub proof fn law_other_texts_are_no_ids(
    s: Seq<char>,
    i: int,
    before: Seq<char>,
    body: Seq<char>,
    behind: Seq<char>,
)
    requires
        text::all_space(before),
        text::all_space(behind),
        body.len() > 0,
        text::clean(body),
    ensures
        hex16(Seq::empty()) == 0,
        0 <= i < s.len() && text::hex_digit(s[i]) is None && (i == 0 ==> s[i] != '+') && !(
        text::trim(s).len() >= 2 && text::trim(s)[0] == '0' && text::trim(s)[1] == 'x') ==> hex16(s)
            == 0,
        0 <= i < body.len() && text::hex_digit(body[i]) is None && (i == 0 ==> body[i] != '+')
            ==> hex16(before + (seq!['0', 'x'] + body) + behind) == 0,
{
    let none = Seq::<char>::empty();
    text::law_trim_takes_the_ends(none, none, none);
    assert(none + none + none =~= none);
    if 0 <= i < s.len() && text::hex_digit(s[i]) is None && (i == 0 ==> s[i] != '+') {
        lemma_no_signed_number(s, i);
    }
    let full = seq!['0', 'x'] + body;
    assert(full.last() == body.last());
    text::law_trim_takes_the_ends(before, full, behind);
    assert(full.skip(2) =~= body);
    if 0 <= i < body.len() && text::hex_digit(body[i]) is None && (i == 0 ==> body[i] != '+') {
        lemma_no_signed_number(body, i);
    }
}

} // verus!
