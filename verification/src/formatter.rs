//! Commit-message formatting: parse a raw message into type, optional scope
//! and description, attach an emoji glyph per configuration, and apply an
//! optional case transform to the first character of the composed string.

use vstd::prelude::*;
use crate::chars::{str_chars, chars_to_string, chars_eq_str, append_chars};

verus! {

/// The Unicode white-space characters, as `str::trim` understands them.
pub open spec fn is_space_char(c: char) -> bool {
    ||| c == ' '
    ||| c == '\t'
    ||| c == '\n'
    ||| c == '\r'
    ||| c == '\u{000B}'
    ||| c == '\u{000C}'
    ||| c == '\u{0085}'
    ||| c == '\u{00A0}'
    ||| c == '\u{1680}'
    ||| c == '\u{2000}'
    ||| c == '\u{2001}'
    ||| c == '\u{2002}'
    ||| c == '\u{2003}'
    ||| c == '\u{2004}'
    ||| c == '\u{2005}'
    ||| c == '\u{2006}'
    ||| c == '\u{2007}'
    ||| c == '\u{2008}'
    ||| c == '\u{2009}'
    ||| c == '\u{200A}'
    ||| c == '\u{2028}'
    ||| c == '\u{2029}'
    ||| c == '\u{202F}'
    ||| c == '\u{205F}'
    ||| c == '\u{3000}'
}

fn is_space(c: char) -> (r: bool)
    ensures
        r == is_space_char(c),
{
    c == ' ' || c == '\t' || c == '\n' || c == '\r' || c == '\u{000B}' || c == '\u{000C}' || c
        == '\u{0085}' || c == '\u{00A0}' || c == '\u{1680}' || c == '\u{2000}' || c == '\u{2001}'
        || c == '\u{2002}' || c == '\u{2003}' || c == '\u{2004}' || c == '\u{2005}' || c
        == '\u{2006}' || c == '\u{2007}' || c == '\u{2008}' || c == '\u{2009}' || c == '\u{200A}'
        || c == '\u{2028}' || c == '\u{2029}' || c == '\u{202F}' || c == '\u{205F}' || c
        == '\u{3000}'
}

/// `s` with its leading white space removed.
pub open spec fn trim_start_spec(s: Seq<char>) -> Seq<char>
    decreases s.len(),
{
    if s.len() > 0 && is_space_char(s.first()) {
        trim_start_spec(s.drop_first())
    } else {
        s
    }
}

/// `s` with its trailing white space removed.
pub open spec fn trim_end_spec(s: Seq<char>) -> Seq<char>
    decreases s.len(),
{
    if s.len() > 0 && is_space_char(s.last()) {
        trim_end_spec(s.drop_last())
    } else {
        s
    }
}

/// `s` with surrounding white space removed.
pub open spec fn trim_spec(s: Seq<char>) -> Seq<char> {
    trim_end_spec(trim_start_spec(s))
}

/// Copy of `v[from..to]`.
pub fn subrange_chars(v: &Vec<char>, from: usize, to: usize) -> (r: Vec<char>)
    requires
        from <= to <= v@.len(),
    ensures
        r@ == v@.subrange(from as int, to as int),
{
    let mut r: Vec<char> = Vec::new();
    let mut i: usize = from;
    while i < to
        invariant
            from <= i <= to <= v@.len(),
            r@ == v@.subrange(from as int, i as int),
        decreases to - i,
    {
        r.push(v[i]);
        proof {
            assert(v@.subrange(from as int, i as int + 1) =~= v@.subrange(
                from as int,
                i as int,
            ).push(v@[i as int]));
        }
        i = i + 1;
    }
    r
}

/// Surrounding white space removed, as a fresh vector.
pub fn trim_chars(v: &Vec<char>) -> (r: Vec<char>)
    ensures
        r@ == trim_spec(v@),
{
    let mut lo: usize = 0;
    proof {
        assert(v@.skip(0) =~= v@);
    }
    while lo < v.len() && is_space(v[lo])
        invariant
            lo <= v@.len(),
            trim_start_spec(v@) == trim_start_spec(v@.skip(lo as int)),
        decreases v@.len() - lo,
    {
        proof {
            assert(v@.skip(lo as int).first() == v@[lo as int]);
            assert(v@.skip(lo as int).drop_first() =~= v@.skip(lo as int + 1));
        }
        lo = lo + 1;
    }
    proof {
        if lo < v@.len() {
            assert(v@.skip(lo as int).first() == v@[lo as int]);
        }
        assert(trim_start_spec(v@) == v@.skip(lo as int));
    }
    let mut hi: usize = v.len();
    while hi > lo && is_space(v[hi - 1])
        invariant
            lo <= hi <= v@.len(),
            trim_start_spec(v@) == v@.skip(lo as int),
            trim_end_spec(v@.skip(lo as int)) == trim_end_spec(v@.subrange(lo as int, hi as int)),
        decreases hi,
    {
        proof {
            let cur = v@.subrange(lo as int, hi as int);
            assert(cur.last() == v@[hi as int - 1]);
            assert(cur.drop_last() =~= v@.subrange(lo as int, hi as int - 1));
        }
        hi = hi - 1;
    }
    proof {
        let cur = v@.subrange(lo as int, hi as int);
        if hi > lo {
            assert(cur.last() == v@[hi as int - 1]);
        }
        assert(trim_end_spec(cur) == cur);
        assert(v@.skip(lo as int) =~= v@.subrange(lo as int, v@.len() as int));
        assert(trim_spec(v@) == v@.subrange(lo as int, hi as int));
    }
    subrange_chars(v, lo, hi)
}

/// Index of the first occurrence of `c` in `s`.
pub open spec fn find_char(s: Seq<char>, c: char) -> Option<int>
    decreases s.len(),
{
    if s.len() == 0 {
        None
    } else if s.first() == c {
        Some(0int)
    } else {
        match find_char(s.drop_first(), c) {
            Some(i) => Some(i + 1),
            None => None,
        }
    }
}

/// `find_char` returns the first index holding `c`, or reports that none does.
pub proof fn lemma_find_char(s: Seq<char>, c: char)
    ensures
        match find_char(s, c) {
            Some(i) => 0 <= i < s.len() && s[i] == c && forall|k: int| 0 <= k < i ==> s[k] != c,
            None => forall|k: int| 0 <= k < s.len() ==> s[k] != c,
        },
    decreases s.len(),
{
    if s.len() == 0 {
    } else if s.first() == c {
    } else {
        lemma_find_char(s.drop_first(), c);
        assert(forall|k: int| 1 <= k < s.len() ==> s[k] == s.drop_first()[k - 1]);
    }
}

/// An index holding `c` with none of `c` before it is what `find_char` returns.
pub proof fn lemma_find_char_witness(s: Seq<char>, c: char, i: int)
    requires
        0 <= i < s.len(),
        s[i] == c,
        forall|k: int| 0 <= k < i ==> s[k] != c,
    ensures
        find_char(s, c) == Some(i),
{
    lemma_find_char(s, c);
    match find_char(s, c) {
        Some(j) => {
            if j < i {
                assert(s[j] != c);
            } else if j > i {
                assert(s[i] != c);
            }
        },
        None => {
            assert(s[i] != c);
        },
    }
}

/// First index of `c` in `v`, if any.
pub fn find_char_in(v: &Vec<char>, c: char) -> (r: Option<usize>)
    ensures
        match r {
            Some(i) => find_char(v@, c) == Some(i as int),
            None => find_char(v@, c) is None,
        },
{
    let mut i: usize = 0;
    while i < v.len()
        invariant
            i <= v@.len(),
            forall|k: int| 0 <= k < i ==> v@[k] != c,
        decreases v@.len() - i,
    {
        if v[i] == c {
            proof {
                lemma_find_char_witness(v@, c, i as int);
            }
            return Some(i);
        }
        i = i + 1;
    }
    proof {
        lemma_find_char(v@, c);
        if find_char(v@, c) is Some {
            let j = find_char(v@, c)->Some_0;
            assert(v@[j] != c);
        }
    }
    None
}

/// The case transform applied to the first character of the composed message.
#[derive(PartialEq, Eq, Structural, Clone, Copy, Debug)]
pub enum FormatMode {
    /// Leave the composed message untouched.
    Untouched,
    /// Uppercase the first character (ASCII letters only).
    UpperFirst,
    /// Lowercase the first character (ASCII letters only).
    LowerFirst,
}

/// Configuration consumed by the formatter: a passive value, immutable for
/// the duration of one formatting call.
pub struct FormatConfig {
    /// Whether a glyph is attached at all; when false the glyph is empty.
    pub emoji_enabled: bool,
    /// User-supplied overlay over the default emoji table: key-wise
    /// overwrite, no deletion; for a duplicated key the first entry wins.
    pub footer_emoji: Vec<(String, String)>,
    /// The case transform for the first character of the composed message.
    pub format_mode: FormatMode,
}

impl Default for FormatConfig {
    /// Emoji on, no overlay entries, no case transform.
    fn default() -> (r: FormatConfig)
        ensures
            r.emoji_enabled == true,
            r.footer_emoji@.len() == 0,
            r.format_mode == FormatMode::Untouched,
    {
        FormatConfig {
            emoji_enabled: true,
            footer_emoji: Vec::new(),
            format_mode: FormatMode::Untouched,
        }
    }
}

/// The case transform selected by the raw `format_mode` configuration
/// string: `upper_case` and `lower_case` select a transform; an absent or
/// unrecognized value selects none.
pub open spec fn mode_of(format_mode: Option<Seq<char>>) -> FormatMode {
    match format_mode {
        Some(s) => if s == "upper_case"@ {
            FormatMode::UpperFirst
        } else if s == "lower_case"@ {
            FormatMode::LowerFirst
        } else {
            FormatMode::Untouched
        },
        None => FormatMode::Untouched,
    }
}

impl FormatConfig {
    /// Build the configuration from the raw, optional settings of the
    /// external configuration document: emoji default on, the overlay
    /// taken as given, and the mode string mapped by `mode_of`.
    pub fn from_settings(
        emoji_enabled: Option<bool>,
        footer_emoji: Vec<(String, String)>,
        format_mode: Option<String>,
    ) -> (r: FormatConfig)
        ensures
            r.emoji_enabled == (match emoji_enabled {
                Some(b) => b,
                None => true,
            }),
            r.footer_emoji == footer_emoji,
            r.format_mode == mode_of(
                match format_mode {
                    Some(s) => Some(s@),
                    None => None,
                },
            ),
    {
        let enabled = match emoji_enabled {
            Some(b) => b,
            None => true,
        };
        let mode = match &format_mode {
            Some(s) => {
                let sv = str_chars(s.as_str());
                if chars_eq_str(&sv, "upper_case") {
                    FormatMode::UpperFirst
                } else if chars_eq_str(&sv, "lower_case") {
                    FormatMode::LowerFirst
                } else {
                    FormatMode::Untouched
                }
            },
            None => FormatMode::Untouched,
        };
        FormatConfig { emoji_enabled: enabled, footer_emoji, format_mode: mode }
    }
}

/// The built-in glyph for a commit type; empty for an unknown type.
pub open spec fn default_glyph(typ: Seq<char>) -> Seq<char> {
    if typ == "feat"@ {
        "✨"@
    } else if typ == "fix"@ {
        "🐛"@
    } else if typ == "docs"@ {
        "📝"@
    } else if typ == "refactor"@ {
        "♻️"@
    } else if typ == "test"@ {
        "✅"@
    } else if typ == "chore"@ {
        "🔧"@
    } else if typ == "build"@ {
        "🏗️"@
    } else if typ == "style"@ {
        "🎨"@
    } else if typ == "ci"@ {
        "🔁"@
    } else if typ == "perf"@ {
        "⚡"@
    } else if typ == "revert"@ {
        "⏪"@
    } else {
        Seq::<char>::empty()
    }
}

fn default_glyph_chars(typ: &Vec<char>) -> (r: Vec<char>)
    ensures
        r@ == default_glyph(typ@),
{
    if chars_eq_str(typ, "feat") {
        str_chars("✨")
    } else if chars_eq_str(typ, "fix") {
        str_chars("🐛")
    } else if chars_eq_str(typ, "docs") {
        str_chars("📝")
    } else if chars_eq_str(typ, "refactor") {
        str_chars("♻️")
    } else if chars_eq_str(typ, "test") {
        str_chars("✅")
    } else if chars_eq_str(typ, "chore") {
        str_chars("🔧")
    } else if chars_eq_str(typ, "build") {
        str_chars("🏗️")
    } else if chars_eq_str(typ, "style") {
        str_chars("🎨")
    } else if chars_eq_str(typ, "ci") {
        str_chars("🔁")
    } else if chars_eq_str(typ, "perf") {
        str_chars("⚡")
    } else if chars_eq_str(typ, "revert") {
        str_chars("⏪")
    } else {
        Vec::new()
    }
}

/// The glyph that the overlay assigns to `typ`, if any: first entry wins.
pub open spec fn overlay_glyph(overlay: Seq<(Seq<char>, Seq<char>)>, typ: Seq<char>) -> Option<
    Seq<char>,
>
    decreases overlay.len(),
{
    if overlay.len() == 0 {
        None
    } else if overlay.first().0 == typ {
        Some(overlay.first().1)
    } else {
        overlay_glyph(overlay.drop_first(), typ)
    }
}

/// The glyph attached to commit type `typ`: empty when emoji are disabled;
/// otherwise the overlay entry if present, else the built-in one, else empty.
pub open spec fn glyph_for(
    emoji_enabled: bool,
    overlay: Seq<(Seq<char>, Seq<char>)>,
    typ: Seq<char>,
) -> Seq<char> {
    if !emoji_enabled {
        Seq::<char>::empty()
    } else {
        match overlay_glyph(overlay, typ) {
            Some(g) => g,
            None => default_glyph(typ),
        }
    }
}

fn lookup_glyph(config: &FormatConfig, typ: &Vec<char>) -> (r: Vec<char>)
    ensures
        r@ == glyph_for(config.emoji_enabled, config.footer_emoji.deep_view(), typ@),
{
    if !config.emoji_enabled {
        return Vec::new();
    }
    let ghost overlay = config.footer_emoji.deep_view();
    let mut i: usize = 0;
    proof {
        assert(overlay.skip(0) =~= overlay);
    }
    while i < config.footer_emoji.len()
        invariant
            config.emoji_enabled,
            overlay == config.footer_emoji.deep_view(),
            overlay.len() == config.footer_emoji@.len(),
            i <= overlay.len(),
            overlay_glyph(overlay, typ@) == overlay_glyph(overlay.skip(i as int), typ@),
        decreases overlay.len() - i,
    {
        proof {
            assert(overlay.skip(i as int).first() == overlay[i as int]);
            assert(overlay[i as int] == (
                config.footer_emoji@[i as int].0@,
                config.footer_emoji@[i as int].1@,
            ));
        }
        if chars_eq_str(typ, config.footer_emoji[i].0.as_str()) {
            let g = str_chars(config.footer_emoji[i].1.as_str());
            proof {
                assert(overlay.skip(i as int).first().0 == typ@);
                assert(overlay_glyph(overlay.skip(i as int), typ@) == Some(
                    overlay[i as int].1,
                ));
                assert(g@ == overlay[i as int].1);
            }
            return g;
        }
        proof {
            assert(overlay.skip(i as int).drop_first() =~= overlay.skip(i as int + 1));
        }
        i = i + 1;
    }
    default_glyph_chars(typ)
}

/// Uppercase an ASCII lowercase letter; leave any other character alone.
pub open spec fn upper_char(c: char) -> char {
    match c {
        'a' => 'A',
        'b' => 'B',
        'c' => 'C',
        'd' => 'D',
        'e' => 'E',
        'f' => 'F',
        'g' => 'G',
        'h' => 'H',
        'i' => 'I',
        'j' => 'J',
        'k' => 'K',
        'l' => 'L',
        'm' => 'M',
        'n' => 'N',
        'o' => 'O',
        'p' => 'P',
        'q' => 'Q',
        'r' => 'R',
        's' => 'S',
        't' => 'T',
        'u' => 'U',
        'v' => 'V',
        'w' => 'W',
        'x' => 'X',
        'y' => 'Y',
        'z' => 'Z',
        _ => c,
    }
}

/// Lowercase an ASCII uppercase letter; leave any other character alone.
pub open spec fn lower_char(c: char) -> char {
    match c {
        'A' => 'a',
        'B' => 'b',
        'C' => 'c',
        'D' => 'd',
        'E' => 'e',
        'F' => 'f',
        'G' => 'g',
        'H' => 'h',
        'I' => 'i',
        'J' => 'j',
        'K' => 'k',
        'L' => 'l',
        'M' => 'm',
        'N' => 'n',
        'O' => 'o',
        'P' => 'p',
        'Q' => 'q',
        'R' => 'r',
        'S' => 's',
        'T' => 't',
        'U' => 'u',
        'V' => 'v',
        'W' => 'w',
        'X' => 'x',
        'Y' => 'y',
        'Z' => 'z',
        _ => c,
    }
}

fn upper_char_exec(c: char) -> (r: char)
    ensures
        r == upper_char(c),
{
    match c {
        'a' => 'A',
        'b' => 'B',
        'c' => 'C',
        'd' => 'D',
        'e' => 'E',
        'f' => 'F',
        'g' => 'G',
        'h' => 'H',
        'i' => 'I',
        'j' => 'J',
        'k' => 'K',
        'l' => 'L',
        'm' => 'M',
        'n' => 'N',
        'o' => 'O',
        'p' => 'P',
        'q' => 'Q',
        'r' => 'R',
        's' => 'S',
        't' => 'T',
        'u' => 'U',
        'v' => 'V',
        'w' => 'W',
        'x' => 'X',
        'y' => 'Y',
        'z' => 'Z',
        _ => c,
    }
}

fn lower_char_exec(c: char) -> (r: char)
    ensures
        r == lower_char(c),
{
    match c {
        'A' => 'a',
        'B' => 'b',
        'C' => 'c',
        'D' => 'd',
        'E' => 'e',
        'F' => 'f',
        'G' => 'g',
        'H' => 'h',
        'I' => 'i',
        'J' => 'j',
        'K' => 'k',
        'L' => 'l',
        'M' => 'm',
        'N' => 'n',
        'O' => 'o',
        'P' => 'p',
        'Q' => 'q',
        'R' => 'r',
        'S' => 's',
        'T' => 't',
        'U' => 'u',
        'V' => 'v',
        'W' => 'w',
        'X' => 'x',
        'Y' => 'y',
        'Z' => 'z',
        _ => c,
    }
}

/// Apply the case transform to the first character of `s`. It acts on the
/// composed string, so with a glyph present it is the glyph's first
/// character, not the type name, that is transformed (and a non-ASCII
/// glyph is left alone by the ASCII-only transform).
pub open spec fn apply_mode(mode: FormatMode, s: Seq<char>) -> Seq<char> {
    if s.len() == 0 {
        s
    } else {
        match mode {
            FormatMode::Untouched => s,
            FormatMode::UpperFirst => s.update(0, upper_char(s[0])),
            FormatMode::LowerFirst => s.update(0, lower_char(s[0])),
        }
    }
}

/// Split a trimmed head segment into the plain type and an optional scope:
/// a scope is recognized only when an open paren appears and the first
/// close paren follows it; otherwise the whole head is the plain type.
pub open spec fn head_split(h: Seq<char>) -> (Seq<char>, Option<Seq<char>>) {
    match find_char(h, '(') {
        None => (h, None),
        Some(p) => match find_char(h, ')') {
            None => (h, None),
            Some(q) => if q < p {
                (h, None)
            } else {
                (trim_spec(h.take(p)), Some(h.subrange(p + 1, q)))
            },
        },
    }
}

/// The composed message before the case transform:
/// `[glyph ]type[(scope)]: body`.
pub open spec fn composed(
    glyph: Seq<char>,
    typ: Seq<char>,
    scope: Option<Seq<char>>,
    body: Seq<char>,
) -> Seq<char> {
    let type_scope = match scope {
        None => typ,
        Some(sc) => typ + seq!['('] + sc + seq![')'],
    };
    let lead = if glyph.len() > 0 {
        glyph + seq![' ']
    } else {
        Seq::<char>::empty()
    };
    lead + type_scope + seq![':', ' '] + body
}

/// What formatting returns for `msg`: the message unchanged when it has no
/// colon or an empty head or body, the decorated composition otherwise.
pub open spec fn format_spec(
    msg: Seq<char>,
    emoji_enabled: bool,
    overlay: Seq<(Seq<char>, Seq<char>)>,
    mode: FormatMode,
) -> Seq<char> {
    match find_char(msg, ':') {
        None => msg,
        Some(i) => {
            let head = trim_spec(msg.take(i));
            let body = trim_spec(msg.skip(i + 1));
            if head.len() == 0 || body.len() == 0 {
                msg
            } else {
                let ts = head_split(head);
                let glyph = glyph_for(emoji_enabled, overlay, ts.0);
                apply_mode(mode, composed(glyph, ts.0, ts.1, body))
            }
        },
    }
}

/// A message without a colon is returned unchanged, byte for byte,
/// whatever the configuration says.
pub proof fn lemma_no_colon_unchanged(
    msg: Seq<char>,
    emoji_enabled: bool,
    overlay: Seq<(Seq<char>, Seq<char>)>,
    mode: FormatMode,
)
    requires
        find_char(msg, ':') is None,
    ensures
        format_spec(msg, emoji_enabled, overlay, mode) == msg,
{
}

/// Format a raw commit message according to `config`.
#[verifier::rlimit(50)]
pub fn format_commit_message(msg: &str, config: &FormatConfig) -> (r: String)
    ensures
        r@ == format_spec(
            msg@,
            config.emoji_enabled,
            config.footer_emoji.deep_view(),
            config.format_mode,
        ),
{
    let mv = str_chars(msg);
    let colon = find_char_in(&mv, ':');
    let i = match colon {
        Some(i) => i,
        None => {
            return chars_to_string(&mv);
        },
    };
    proof {
        lemma_find_char(mv@, ':');
    }
    let n = mv.len();
    let head_raw = subrange_chars(&mv, 0, i);
    let body_raw = subrange_chars(&mv, i + 1, n);
    proof {
        assert(head_raw@ =~= mv@.take(i as int));
        assert(body_raw@ =~= mv@.skip(i as int + 1));
    }
    let head = trim_chars(&head_raw);
    let body = trim_chars(&body_raw);
    if head.len() == 0 || body.len() == 0 {
        return chars_to_string(&mv);
    }
    let p_opt = find_char_in(&head, '(');
    let q_opt = find_char_in(&head, ')');
    proof {
        lemma_find_char(head@, '(');
        lemma_find_char(head@, ')');
    }
    let mut typ: Vec<char> = Vec::new();
    let mut scope: Option<Vec<char>> = None;
    let with_scope: bool = match (p_opt, q_opt) {
        (Some(p), Some(q)) => q > p,
        _ => false,
    };
    if with_scope {
        let p = p_opt.unwrap();
        let q = q_opt.unwrap();
        let typ_raw = subrange_chars(&head, 0, p);
        proof {
            assert(typ_raw@ =~= head@.take(p as int));
        }
        typ = trim_chars(&typ_raw);
        scope = Some(subrange_chars(&head, p + 1, q));
    } else {
        typ = subrange_chars(&head, 0, head.len());
        proof {
            assert(typ@ =~= head@);
        }
    }
    proof {
        let ts = head_split(head@);
        assert(typ@ == ts.0);
        match &scope {
            Some(sc) => {
                assert(ts.1 == Some(sc@));
            },
            None => {
                assert(ts.1 is None);
            },
        }
    }
    let glyph = lookup_glyph(config, &typ);
    let mut out: Vec<char> = Vec::new();
    if glyph.len() > 0 {
        append_chars(&mut out, &glyph);
        out.push(' ');
    }
    let ghost lead = out@;
    proof {
        if glyph@.len() > 0 {
            assert(lead =~= glyph@ + seq![' ']);
        } else {
            assert(lead =~= Seq::<char>::empty());
        }
    }
    append_chars(&mut out, &typ);
    match &scope {
        Some(sc) => {
            out.push('(');
            append_chars(&mut out, sc);
            out.push(')');
        },
        None => {},
    }
    let ghost ts_part = out@.skip(lead.len() as int);
    proof {
        let ts = head_split(head@);
        match ts.1 {
            Some(sc) => {
                assert(ts_part =~= typ@ + seq!['('] + sc + seq![')']);
            },
            None => {
                assert(ts_part =~= typ@);
            },
        }
    }
    out.push(':');
    out.push(' ');
    append_chars(&mut out, &body);
    proof {
        let ts = head_split(head@);
        assert(out@ =~= composed(glyph@, ts.0, ts.1, body@));
    }
    if out.len() > 0 {
        match config.format_mode {
            FormatMode::Untouched => {},
            FormatMode::UpperFirst => {
                let c0 = out[0];
                let u = upper_char_exec(c0);
                out.set(0, u);
            },
            FormatMode::LowerFirst => {
                let c0 = out[0];
                let u = lower_char_exec(c0);
                out.set(0, u);
            },
        }
    }
    proof {
        let ts = head_split(head@);
        assert(out@ =~= apply_mode(
            config.format_mode,
            composed(glyph_for(config.emoji_enabled, config.footer_emoji.deep_view(), ts.0), ts.0, ts.1, body@),
        ));
    }
    chars_to_string(&out)
}

/// Does the (trimmed) message have the `type: description` or
/// `type(scope): description` shape: a colon with non-empty trimmed
/// segments on both sides, and, when an open paren appears in the type
/// segment, a close paren after it?
pub open spec fn is_conventional_spec(msg: Seq<char>) -> bool {
    let m = trim_spec(msg);
    match find_char(m, ':') {
        None => false,
        Some(i) => {
            let typ = trim_spec(m.take(i));
            let rest = trim_spec(m.skip(i + 1));
            &&& typ.len() > 0
            &&& rest.len() > 0
            &&& match find_char(typ, '(') {
                None => true,
                Some(p) => match find_char(typ, ')') {
                    None => false,
                    Some(q) => q > p,
                },
            }
        },
    }
}

/// Check whether a message follows the conventional-commit shape.
pub fn is_conventional_commit(msg: &str) -> (r: bool)
    ensures
        r == is_conventional_spec(msg@),
{
    let mv_raw = str_chars(msg);
    let mv = trim_chars(&mv_raw);
    let colon = find_char_in(&mv, ':');
    let i = match colon {
        Some(i) => i,
        None => {
            return false;
        },
    };
    proof {
        lemma_find_char(mv@, ':');
    }
    let typ_raw = subrange_chars(&mv, 0, i);
    let rest_raw = subrange_chars(&mv, i + 1, mv.len());
    proof {
        assert(typ_raw@ =~= mv@.take(i as int));
        assert(rest_raw@ =~= mv@.skip(i as int + 1));
    }
    let typ = trim_chars(&typ_raw);
    let rest = trim_chars(&rest_raw);
    if typ.len() == 0 || rest.len() == 0 {
        return false;
    }
    let p_opt = find_char_in(&typ, '(');
    match p_opt {
        None => true,
        Some(p) => {
            let q_opt = find_char_in(&typ, ')');
            match q_opt {
                None => false,
                Some(q) => q > p,
            }
        },
    }
}

} // verus!

