//! The nvm settings file: `key: value` lines, `#` comments and blank lines.
use vstd::prelude::*;
use crate::text::{find_char, index_of, trim_range, trimmed};

verus! {

/// The settings of the nvm installation.
pub struct NvmConfig {
    /// Where nvm keeps its releases (`root`).
    pub nvm_path: String,
    /// The link to the active release (`path`).
    pub nvm_symlink: String,
    /// The base address releases are fetched from (`node_mirror`).
    pub node_mirror: String,
    /// The npm mirror (`npm_mirror`).
    pub npm_mirror: String,
    /// The architecture setting, `64` or `32` (`arch`).
    pub arch: String,
    /// When the settings file was last changed, where known.
    pub last_updated: Option<String>,
    /// What closing the window does: `ask`, `quit` or `hide` (`close_action`).
    pub close_action: String,
    /// The shared prefix of global packages (`global_prefix`).
    pub global_prefix: Option<String>,
}

/// The settings as text.
pub struct NvmConfigView {
    pub nvm_path: Seq<char>,
    pub nvm_symlink: Seq<char>,
    pub node_mirror: Seq<char>,
    pub npm_mirror: Seq<char>,
    pub arch: Seq<char>,
    pub last_updated: Option<Seq<char>>,
    pub close_action: Seq<char>,
    pub global_prefix: Option<Seq<char>>,
}

/// The text of an optional string.
pub open spec fn opt_text(o: Option<String>) -> Option<Seq<char>> {
    match o {
        Some(s) => Some(s@),
        None => None,
    }
}

impl View for NvmConfig {
    type V = NvmConfigView;

    open spec fn view(&self) -> NvmConfigView {
        NvmConfigView {
            nvm_path: self.nvm_path@,
            nvm_symlink: self.nvm_symlink@,
            node_mirror: self.node_mirror@,
            npm_mirror: self.npm_mirror@,
            arch: self.arch@,
            last_updated: opt_text(self.last_updated),
            close_action: self.close_action@,
            global_prefix: opt_text(self.global_prefix),
        }
    }
}

/// The settings before any line is read.
pub open spec fn default_settings() -> NvmConfigView {
    NvmConfigView {
        nvm_path: Seq::empty(),
        nvm_symlink: Seq::empty(),
        node_mirror: "https://nodejs.org/dist/"@,
        npm_mirror: Seq::empty(),
        arch: "64"@,
        last_updated: None,
        close_action: "ask"@,
        global_prefix: None,
    }
}

/// The settings after the setting `key` (already in lower case) is given
/// `value`; an unknown key changes nothing, and an empty global prefix
/// clears it.
pub open spec fn apply_setting_of(c: NvmConfigView, key: Seq<char>, value: Seq<char>) -> NvmConfigView {
    if key == "root"@ {
        NvmConfigView { nvm_path: value, ..c }
    } else if key == "path"@ {
        NvmConfigView { nvm_symlink: value, ..c }
    } else if key == "node_mirror"@ {
        NvmConfigView { node_mirror: value, ..c }
    } else if key == "npm_mirror"@ {
        NvmConfigView { npm_mirror: value, ..c }
    } else if key == "arch"@ {
        NvmConfigView { arch: value, ..c }
    } else if key == "close_action"@ {
        NvmConfigView { close_action: value, ..c }
    } else if key == "global_prefix"@ {
        NvmConfigView {
            global_prefix: if value.len() == 0 {
                None
            } else {
                Some(value)
            },
            ..c
        }
    } else {
        c
    }
}

/// What `str::to_lowercase` returns for `s`.
pub uninterp spec fn lowercase_of(s: Seq<char>) -> Seq<char>;

/// Relies on `str::to_lowercase`: the lower case form of a string, which
/// depends on its characters alone.
#[verifier::external_body]
fn lowercase(s: &str) -> (r: String)
    ensures
        r@ == lowercase_of(s@),
{
    s.to_lowercase()
}

/// The settings after one line: blank lines, comments and lines without a
/// colon change nothing; otherwise the text before the first colon, trimmed
/// and in lower case, is the key, and the trimmed rest is the value.
pub open spec fn apply_line_of(c: NvmConfigView, line: Seq<char>) -> NvmConfigView {
    let t = trimmed(line);
    let k = index_of(t, ':');
    if t.len() == 0 || t[0] == '#' || k >= t.len() {
        c
    } else {
        apply_setting_of(
            c,
            lowercase_of(trimmed(t.subrange(0, k as int))),
            trimmed(t.subrange(k as int + 1, t.len() as int)),
        )
    }
}

/// The settings after each line of `s` in turn.
pub open spec fn apply_lines_of(c: NvmConfigView, s: Seq<char>) -> NvmConfigView
    decreases s.len(),
{
    let n = index_of(s, '\n');
    let next = apply_line_of(c, s.subrange(0, if n <= s.len() { n as int } else { s.len() as int }));
    if n < s.len() {
        apply_lines_of(next, s.subrange(n as int + 1, s.len() as int))
    } else {
        next
    }
}

/// The settings that the text `s` of a settings file gives.
pub open spec fn settings_of(s: Seq<char>) -> NvmConfigView {
    apply_lines_of(default_settings(), s)
}

fn same_text(a: &str, b: &str) -> (r: bool)
    ensures
        r == (a@ == b@),
{
    String::from_str(a) == String::from_str(b)
}

/// Gives the setting `key`, already in lower case, the value `value`.
pub fn apply_setting(config: &mut NvmConfig, key: &str, value: &str)
    ensures
        final(config)@ == apply_setting_of(old(config)@, key@, value@),
{
    let v = String::from_str(value);
    if same_text(key, "root") {
        config.nvm_path = v;
    } else if same_text(key, "path") {
        config.nvm_symlink = v;
    } else if same_text(key, "node_mirror") {
        config.node_mirror = v;
    } else if same_text(key, "npm_mirror") {
        config.npm_mirror = v;
    } else if same_text(key, "arch") {
        config.arch = v;
    } else if same_text(key, "close_action") {
        config.close_action = v;
    } else if same_text(key, "global_prefix") {
        config.global_prefix = if value.unicode_len() == 0 {
            None
        } else {
            Some(v)
        };
    }
}

fn apply_line(config: &mut NvmConfig, s: &str, from: usize, to: usize)
    requires
        from <= to <= s@.len(),
    ensures
        final(config)@ == apply_line_of(old(config)@, s@.subrange(from as int, to as int)),
{
    let ghost line = s@.subrange(from as int, to as int);
    let (a, b) = trim_range(s, from, to);
    let ghost t = s@.subrange(a as int, b as int);
    if a == b || s.get_char(a) == '#' {
        return;
    }
    let k = find_char(s, ':', a, b);
    if k == b {
        return;
    }
    proof {
        crate::text::lemma_index_of_bound(t, ':');
        assert(s@.subrange(a as int, k as int) =~= t.subrange(0, k - a));
        assert(s@.subrange(k + 1, b as int) =~= t.subrange(k - a + 1, t.len() as int));
    }
    let (ka, kb) = trim_range(s, a, k);
    let (va, vb) = trim_range(s, k + 1, b);
    let key = lowercase(s.substring_char(ka, kb));
    apply_setting(config, key.as_str(), s.substring_char(va, vb));
}

/// Reads the settings in the text of a settings file. Unset settings keep
/// their defaults; a later line overrides an earlier one.
pub fn parse_nvm_settings(content: &str) -> (r: NvmConfig)
    ensures
        r@ == settings_of(content@),
{
    let mut config = NvmConfig {
        nvm_path: String::new(),
        nvm_symlink: String::new(),
        node_mirror: String::from_str("https://nodejs.org/dist/"),
        npm_mirror: String::new(),
        arch: String::from_str("64"),
        last_updated: None,
        close_action: String::from_str("ask"),
        global_prefix: None,
    };
    assert(config@ == default_settings());
    let n = content.unicode_len();
    assert(content@.subrange(0, n as int) =~= content@);
    let mut start: usize = 0;
    let mut done = false;
    while !done
        invariant
            n == content@.len(),
            start <= n,
            !done ==> apply_lines_of(config@, content@.subrange(start as int, n as int))
                == settings_of(content@),
            done ==> config@ == settings_of(content@),
        decreases (n - start) + if done {
            0int
        } else {
            1int
        },
    {
        let ghost rest = content@.subrange(start as int, n as int);
        let ghost before = config@;
        let end = find_char(content, '\n', start, n);
        proof {
            crate::text::lemma_index_of_bound(rest, '\n');
            assert(content@.subrange(start as int, end as int) =~= rest.subrange(
                0,
                end - start,
            ));
        }
        apply_line(&mut config, content, start, end);
        if end < n {
            assert(content@.subrange(end + 1, n as int) =~= rest.subrange(
                end - start + 1,
                rest.len() as int,
            ));
            start = end + 1;
        } else {
            done = true;
        }
    }
    config
}

} // verus!
