//! The shortcut descriptor: its vocabulary and its parser.

use vstd::prelude::*;

verus! {

/// A trigger key with a name of its own in the host's vocabulary: editing,
/// navigation, lock, arrow, numpad, audio and media keys, and the printable
/// punctuation.
#[derive(Clone, Copy, Debug, PartialEq, Eq, Structural)]
pub enum NamedKey {
    Backquote,
    Backslash,
    BracketLeft,
    BracketRight,
    Pause,
    Comma,
    Equal,
    Minus,
    Period,
    Quote,
    Semicolon,
    Slash,
    Backspace,
    CapsLock,
    Enter,
    Space,
    Tab,
    Delete,
    End,
    Home,
    Insert,
    PageDown,
    PageUp,
    PrintScreen,
    ScrollLock,
    ArrowDown,
    ArrowLeft,
    ArrowRight,
    ArrowUp,
    NumLock,
    Numpad0,
    Numpad1,
    Numpad2,
    Numpad3,
    Numpad4,
    Numpad5,
    Numpad6,
    Numpad7,
    Numpad8,
    Numpad9,
    NumpadAdd,
    NumpadDecimal,
    NumpadDivide,
    NumpadEnter,
    NumpadEqual,
    NumpadMultiply,
    NumpadSubtract,
    Escape,
    AudioVolumeDown,
    AudioVolumeUp,
    AudioVolumeMute,
    MediaPlay,
    MediaPause,
    MediaPlayPause,
    MediaStop,
    MediaTrackNext,
    MediaTrackPrevious,
}

/// The trigger key of a combination, in canonical form: an upper-case ASCII
/// letter code, an ASCII digit code, a function-key number, or a named key.
#[derive(Clone, Copy, Debug, PartialEq, Eq, Structural)]
pub enum TriggerKey {
    Letter(u8),
    Digit(u8),
    Function(u8),
    Named(NamedKey),
}

/// A well-formed trigger key: `Letter` holds `'A'..='Z'`, `Digit` holds
/// `'0'..='9'`, and `Function` holds `1..=24` (for `F1`..`F24`).
pub open spec fn key_wf(k: TriggerKey) -> bool {
    match k {
        TriggerKey::Letter(b) => 65 <= b <= 90,
        TriggerKey::Digit(b) => 48 <= b <= 57,
        TriggerKey::Function(n) => 1 <= n <= 24,
        TriggerKey::Named(_) => true,
    }
}

/// A parsed key combination: the set of modifiers and the single trigger key.
#[derive(Clone, Copy, Debug, PartialEq, Eq, Structural)]
pub struct ShortcutDescriptor {
    pub ctrl: bool,
    pub alt: bool,
    pub shift: bool,
    pub meta: bool,
    pub key: TriggerKey,
}

/// A well-formed descriptor is one whose trigger key is well-formed.
pub open spec fn descriptor_wf(d: ShortcutDescriptor) -> bool {
    key_wf(d.key)
}

/// The code of `c` with an upper-case ASCII letter folded to lower case.
/// Tokens are recognized case-insensitively through this fold.
pub open spec fn lower_code(c: char) -> u32 {
    if 65 <= c as u32 && c as u32 <= 90 {
        (c as u32 + 32) as u32
    } else {
        c as u32
    }
}

/// The code of `c` with a lower-case ASCII letter folded to upper case.
pub open spec fn upper_code(c: char) -> u32 {
    if 97 <= c as u32 && c as u32 <= 122 {
        (c as u32 - 32) as u32
    } else {
        c as u32
    }
}

/// `c` is an ASCII letter, of either case.
pub open spec fn is_letter(c: char) -> bool {
    97 <= lower_code(c) <= 122
}

/// `c` is an ASCII digit.
pub open spec fn is_digit_char(c: char) -> bool {
    48 <= c as u32 <= 57
}

/// `t` spells `lit`, ignoring ASCII case.
pub open spec fn matches_ci(t: Seq<char>, lit: Seq<char>) -> bool {
    t.len() == lit.len() && forall|i: int|
        0 <= i < t.len() ==> lower_code(#[trigger] t[i]) == lower_code(lit[i])
}

/// `c` is ASCII whitespace, which trimming removes from a token's ends.
pub open spec fn is_ws(c: char) -> bool {
    c as u32 == 32 || 9 <= c as u32 <= 13
}

/// `t` without its leading whitespace.
pub open spec fn trim_front(t: Seq<char>) -> Seq<char>
    decreases t.len(),
{
    if t.len() > 0 && is_ws(t[0]) {
        trim_front(t.drop_first())
    } else {
        t
    }
}

/// `t` without its trailing whitespace.
pub open spec fn trim_back(t: Seq<char>) -> Seq<char>
    decreases t.len(),
{
    if t.len() > 0 && is_ws(t.last()) {
        trim_back(t.drop_last())
    } else {
        t
    }
}

/// `t` without leading and trailing whitespace.
pub open spec fn trim_spec(t: Seq<char>) -> Seq<char> {
    trim_back(trim_front(t))
}

/// Every token trimmed.
pub open spec fn trim_all(toks: Seq<Seq<char>>) -> Seq<Seq<char>> {
    toks.map_values(|t: Seq<char>| trim_spec(t))
}

/// The token names the Control modifier — including the command-or-control
/// spellings, read as Control (their meaning away from Apple platforms).
pub open spec fn is_ctrl_token(t: Seq<char>) -> bool {
    matches_ci(t, "ctrl"@) || matches_ci(t, "control"@) || matches_ci(t, "commandorcontrol"@)
        || matches_ci(t, "commandorctrl"@) || matches_ci(t, "cmdorctrl"@) || matches_ci(
        t,
        "cmdorcontrol"@,
    )
}

/// The token names the Alt modifier.
pub open spec fn is_alt_token(t: Seq<char>) -> bool {
    matches_ci(t, "alt"@) || matches_ci(t, "option"@)
}

/// The token names the Shift modifier.
pub open spec fn is_shift_token(t: Seq<char>) -> bool {
    matches_ci(t, "shift"@)
}

/// The token names the Meta (Super/Command) modifier.
pub open spec fn is_meta_token(t: Seq<char>) -> bool {
    matches_ci(t, "super"@) || matches_ci(t, "cmd"@) || matches_ci(t, "command"@)
}

/// The token names some modifier.
pub open spec fn is_modifier_token(t: Seq<char>) -> bool {
    is_ctrl_token(t) || is_alt_token(t) || is_shift_token(t) || is_meta_token(t)
}

/// The named key a token denotes, if any, under the host's spellings.
pub open spec fn named_of_token(t: Seq<char>) -> Option<NamedKey> {
    if matches_ci(t, "backquote"@) || matches_ci(t, "`"@) {
        Option::Some(NamedKey::Backquote)
    } else if matches_ci(t, "backslash"@) || matches_ci(t, "\\"@) {
        Option::Some(NamedKey::Backslash)
    } else if matches_ci(t, "bracketleft"@) || matches_ci(t, "["@) {
        Option::Some(NamedKey::BracketLeft)
    } else if matches_ci(t, "bracketright"@) || matches_ci(t, "]"@) {
        Option::Some(NamedKey::BracketRight)
    } else if matches_ci(t, "pause"@) || matches_ci(t, "pausebreak"@) {
        Option::Some(NamedKey::Pause)
    } else if matches_ci(t, "comma"@) || matches_ci(t, ","@) {
        Option::Some(NamedKey::Comma)
    } else if matches_ci(t, "equal"@) || matches_ci(t, "="@) {
        Option::Some(NamedKey::Equal)
    } else if matches_ci(t, "minus"@) || matches_ci(t, "-"@) {
        Option::Some(NamedKey::Minus)
    } else if matches_ci(t, "period"@) || matches_ci(t, "."@) {
        Option::Some(NamedKey::Period)
    } else if matches_ci(t, "quote"@) || matches_ci(t, "'"@) {
        Option::Some(NamedKey::Quote)
    } else if matches_ci(t, "semicolon"@) || matches_ci(t, ";"@) {
        Option::Some(NamedKey::Semicolon)
    } else if matches_ci(t, "slash"@) || matches_ci(t, "/"@) {
        Option::Some(NamedKey::Slash)
    } else if matches_ci(t, "backspace"@) {
        Option::Some(NamedKey::Backspace)
    } else if matches_ci(t, "capslock"@) {
        Option::Some(NamedKey::CapsLock)
    } else if matches_ci(t, "enter"@) {
        Option::Some(NamedKey::Enter)
    } else if matches_ci(t, "space"@) {
        Option::Some(NamedKey::Space)
    } else if matches_ci(t, "tab"@) {
        Option::Some(NamedKey::Tab)
    } else if matches_ci(t, "delete"@) {
        Option::Some(NamedKey::Delete)
    } else if matches_ci(t, "end"@) {
        Option::Some(NamedKey::End)
    } else if matches_ci(t, "home"@) {
        Option::Some(NamedKey::Home)
    } else if matches_ci(t, "insert"@) {
        Option::Some(NamedKey::Insert)
    } else if matches_ci(t, "pagedown"@) {
        Option::Some(NamedKey::PageDown)
    } else if matches_ci(t, "pageup"@) {
        Option::Some(NamedKey::PageUp)
    } else if matches_ci(t, "printscreen"@) {
        Option::Some(NamedKey::PrintScreen)
    } else if matches_ci(t, "scrolllock"@) {
        Option::Some(NamedKey::ScrollLock)
    } else if matches_ci(t, "arrowdown"@) || matches_ci(t, "down"@) {
        Option::Some(NamedKey::ArrowDown)
    } else if matches_ci(t, "arrowleft"@) || matches_ci(t, "left"@) {
        Option::Some(NamedKey::ArrowLeft)
    } else if matches_ci(t, "arrowright"@) || matches_ci(t, "right"@) {
        Option::Some(NamedKey::ArrowRight)
    } else if matches_ci(t, "arrowup"@) || matches_ci(t, "up"@) {
        Option::Some(NamedKey::ArrowUp)
    } else if matches_ci(t, "numlock"@) {
        Option::Some(NamedKey::NumLock)
    } else if matches_ci(t, "numpad0"@) || matches_ci(t, "num0"@) {
        Option::Some(NamedKey::Numpad0)
    } else if matches_ci(t, "numpad1"@) || matches_ci(t, "num1"@) {
        Option::Some(NamedKey::Numpad1)
    } else if matches_ci(t, "numpad2"@) || matches_ci(t, "num2"@) {
        Option::Some(NamedKey::Numpad2)
    } else if matches_ci(t, "numpad3"@) || matches_ci(t, "num3"@) {
        Option::Some(NamedKey::Numpad3)
    } else if matches_ci(t, "numpad4"@) || matches_ci(t, "num4"@) {
        Option::Some(NamedKey::Numpad4)
    } else if matches_ci(t, "numpad5"@) || matches_ci(t, "num5"@) {
        Option::Some(NamedKey::Numpad5)
    } else if matches_ci(t, "numpad6"@) || matches_ci(t, "num6"@) {
        Option::Some(NamedKey::Numpad6)
    } else if matches_ci(t, "numpad7"@) || matches_ci(t, "num7"@) {
        Option::Some(NamedKey::Numpad7)
    } else if matches_ci(t, "numpad8"@) || matches_ci(t, "num8"@) {
        Option::Some(NamedKey::Numpad8)
    } else if matches_ci(t, "numpad9"@) || matches_ci(t, "num9"@) {
        Option::Some(NamedKey::Numpad9)
    } else if matches_ci(t, "numpadadd"@) || matches_ci(t, "numadd"@) || matches_ci(
        t,
        "numpadplus"@,
    ) || matches_ci(t, "numplus"@) {
        Option::Some(NamedKey::NumpadAdd)
    } else if matches_ci(t, "numpaddecimal"@) || matches_ci(t, "numdecimal"@) {
        Option::Some(NamedKey::NumpadDecimal)
    } else if matches_ci(t, "numpaddivide"@) || matches_ci(t, "numdivide"@) {
        Option::Some(NamedKey::NumpadDivide)
    } else if matches_ci(t, "numpadenter"@) || matches_ci(t, "numenter"@) {
        Option::Some(NamedKey::NumpadEnter)
    } else if matches_ci(t, "numpadequal"@) || matches_ci(t, "numequal"@) {
        Option::Some(NamedKey::NumpadEqual)
    } else if matches_ci(t, "numpadmultiply"@) || matches_ci(t, "nummultiply"@) {
        Option::Some(NamedKey::NumpadMultiply)
    } else if matches_ci(t, "numpadsubtract"@) || matches_ci(t, "numsubtract"@) {
        Option::Some(NamedKey::NumpadSubtract)
    } else if matches_ci(t, "escape"@) || matches_ci(t, "esc"@) {
        Option::Some(NamedKey::Escape)
    } else if matches_ci(t, "audiovolumedown"@) || matches_ci(t, "volumedown"@) {
        Option::Some(NamedKey::AudioVolumeDown)
    } else if matches_ci(t, "audiovolumeup"@) || matches_ci(t, "volumeup"@) {
        Option::Some(NamedKey::AudioVolumeUp)
    } else if matches_ci(t, "audiovolumemute"@) || matches_ci(t, "volumemute"@) {
        Option::Some(NamedKey::AudioVolumeMute)
    } else if matches_ci(t, "mediaplay"@) {
        Option::Some(NamedKey::MediaPlay)
    } else if matches_ci(t, "mediapause"@) {
        Option::Some(NamedKey::MediaPause)
    } else if matches_ci(t, "mediaplaypause"@) {
        Option::Some(NamedKey::MediaPlayPause)
    } else if matches_ci(t, "mediastop"@) {
        Option::Some(NamedKey::MediaStop)
    } else if matches_ci(t, "mediatracknext"@) {
        Option::Some(NamedKey::MediaTrackNext)
    } else if matches_ci(t, "mediatrackprev"@) || matches_ci(t, "mediatrackprevious"@) {
        Option::Some(NamedKey::MediaTrackPrevious)
    } else {
        Option::None
    }
}

/// The trigger key a token denotes, if any: a bare letter or digit, a
/// `key<letter>` or `digit<digit>` form, `f1`..`f24`, or a named key — all
/// ignoring ASCII case.
pub open spec fn key_of_token(t: Seq<char>) -> Option<TriggerKey> {
    if t.len() == 1 && is_letter(t[0]) {
        Option::Some(TriggerKey::Letter(upper_code(t[0]) as u8))
    } else if t.len() == 1 && is_digit_char(t[0]) {
        Option::Some(TriggerKey::Digit((t[0] as u32) as u8))
    } else if t.len() == 4 && matches_ci(t.subrange(0, 3), "key"@) && is_letter(t[3]) {
        Option::Some(TriggerKey::Letter(upper_code(t[3]) as u8))
    } else if t.len() == 6 && matches_ci(t.subrange(0, 5), "digit"@) && is_digit_char(t[5]) {
        Option::Some(TriggerKey::Digit((t[5] as u32) as u8))
    } else if t.len() == 2 && lower_code(t[0]) == 'f' as u32 && 49 <= t[1] as u32 <= 57 {
        Option::Some(TriggerKey::Function((t[1] as u32 - 48) as u8))
    } else if t.len() == 3 && lower_code(t[0]) == 'f' as u32 && t[1] as u32 == 49 && 48 <= t[2]
        as u32 <= 57 {
        Option::Some(TriggerKey::Function((t[2] as u32 - 48 + 10) as u8))
    } else if t.len() == 3 && lower_code(t[0]) == 'f' as u32 && t[1] as u32 == 50 && 48 <= t[2]
        as u32 <= 52 {
        Option::Some(TriggerKey::Function((t[2] as u32 - 48 + 20) as u8))
    } else {
        match named_of_token(t) {
            Option::Some(n) => Option::Some(TriggerKey::Named(n)),
            Option::None => Option::None,
        }
    }
}

/// The state of the parse after some tokens: the modifiers seen so far and
/// the trigger key, once one has appeared.
#[derive(Clone, Copy, Debug)]
pub struct ParseAcc {
    pub ctrl: bool,
    pub alt: bool,
    pub shift: bool,
    pub meta: bool,
    pub key: Option<TriggerKey>,
}

/// The state before any token.
pub open spec fn acc_init() -> ParseAcc {
    ParseAcc { ctrl: false, alt: false, shift: false, meta: false, key: Option::None }
}

/// One token advances the parse, or fails it. The trigger key must come
/// last: a token after it — a second key, or a trailing modifier — is
/// malformed. An unrecognized or empty token is malformed.
pub open spec fn acc_step(acc: ParseAcc, t: Seq<char>) -> Option<ParseAcc> {
    if acc.key is Some {
        Option::None
    } else if is_ctrl_token(t) {
        Option::Some(ParseAcc { ctrl: true, alt: acc.alt, shift: acc.shift, meta: acc.meta, key: acc.key })
    } else if is_alt_token(t) {
        Option::Some(ParseAcc { ctrl: acc.ctrl, alt: true, shift: acc.shift, meta: acc.meta, key: acc.key })
    } else if is_shift_token(t) {
        Option::Some(ParseAcc { ctrl: acc.ctrl, alt: acc.alt, shift: true, meta: acc.meta, key: acc.key })
    } else if is_meta_token(t) {
        Option::Some(ParseAcc { ctrl: acc.ctrl, alt: acc.alt, shift: acc.shift, meta: true, key: acc.key })
    } else {
        match key_of_token(t) {
            Option::Some(k) => Option::Some(
                ParseAcc {
                    ctrl: acc.ctrl,
                    alt: acc.alt,
                    shift: acc.shift,
                    meta: acc.meta,
                    key: Option::Some(k),
                },
            ),
            Option::None => Option::None,
        }
    }
}

/// The descriptor a finished parse yields, if a trigger key was seen.
pub open spec fn acc_finish(acc: ParseAcc) -> Option<ShortcutDescriptor> {
    match acc.key {
        Option::Some(k) => Option::Some(
            ShortcutDescriptor {
                ctrl: acc.ctrl,
                alt: acc.alt,
                shift: acc.shift,
                meta: acc.meta,
                key: k,
            },
        ),
        Option::None => Option::None,
    }
}

/// Fold the tokens through `acc_step`, then finish.
pub open spec fn parse_tokens(toks: Seq<Seq<char>>, acc: ParseAcc) -> Option<ShortcutDescriptor>
    decreases toks.len(),
{
    if toks.len() == 0 {
        acc_finish(acc)
    } else {
        match acc_step(acc, toks[0]) {
            Option::Some(a) => parse_tokens(toks.drop_first(), a),
            Option::None => Option::None,
        }
    }
}

/// The index of the first `'+'` in `s`, or `s.len()` if there is none.
pub open spec fn first_plus(s: Seq<char>) -> nat
    decreases s.len(),
{
    if s.len() == 0 {
        0
    } else if s[0] == '+' {
        0
    } else {
        1 + first_plus(s.drop_first())
    }
}

/// The tokens of `s`: the maximal `'+'`-free runs. A descriptor with a
/// leading, trailing or doubled `'+'` yields an empty token.
pub open spec fn split_plus(s: Seq<char>) -> Seq<Seq<char>>
    decreases s.len(),
{
    let i = first_plus(s);
    if i >= s.len() {
        seq![s]
    } else {
        seq![s.subrange(0, i as int)] + split_plus(s.subrange(i as int + 1, s.len() as int))
    }
}

/// What a descriptor string denotes: the combination its tokens build, or
/// nothing if it is malformed. With several tokens each is trimmed of
/// surrounding whitespace; a lone token stands as written — as the host
/// facility reads descriptors.
pub open spec fn parse_spec(s: Seq<char>) -> Option<ShortcutDescriptor> {
    let toks = split_plus(s);
    if toks.len() == 1 {
        parse_tokens(toks, acc_init())
    } else {
        parse_tokens(trim_all(toks), acc_init())
    }
}

/// A position with nothing but plus-free characters before it, and a `'+'`
/// at it (or the end), is exactly `first_plus`.
pub proof fn lemma_first_plus_at(s: Seq<char>, k: int)
    requires
        0 <= k <= s.len(),
        forall|j: int| 0 <= j < k ==> s[j] != '+',
        k < s.len() ==> s[k] == '+',
    ensures
        first_plus(s) == k,
    decreases s.len(),
{
    if k == 0 {
    } else {
        assert(s[0] != '+');
        lemma_first_plus_at(s.drop_first(), k - 1);
    }
}

/// Every key a token can denote is well-formed.
pub proof fn lemma_key_of_token_wf(t: Seq<char>)
    ensures
        key_of_token(t) matches Option::Some(k) ==> key_wf(k),
{
    if key_of_token(t) is Some {
        if t.len() == 1 && is_letter(t[0]) {
            assert(65 <= upper_code(t[0]) <= 90);
        } else if t.len() == 1 && is_digit_char(t[0]) {
            assert(48 <= t[0] as u32 <= 57);
        } else if t.len() == 4 && matches_ci(t.subrange(0, 3), "key"@) && is_letter(t[3]) {
            assert(65 <= upper_code(t[3]) <= 90);
        } else if t.len() == 6 && matches_ci(t.subrange(0, 5), "digit"@) && is_digit_char(t[5]) {
            assert(48 <= t[5] as u32 <= 57);
        }
    }
}

/// The token denotes a trigger key and spells no modifier name. The host
/// keeps its two vocabularies apart, so every token that denotes a key is of
/// this kind; the parse steps such a token into the key slot.
pub open spec fn is_key_token(t: Seq<char>) -> bool {
    key_of_token(t) is Some && !is_modifier_token(t)
}

/// The parse only ever builds well-formed descriptors.
pub proof fn lemma_parse_tokens_wf(toks: Seq<Seq<char>>, acc: ParseAcc)
    requires
        acc.key matches Option::Some(k) ==> key_wf(k),
    ensures
        parse_tokens(toks, acc) matches Option::Some(d) ==> descriptor_wf(d),
    decreases toks.len(),
{
    if toks.len() > 0 {
        match acc_step(acc, toks[0]) {
            Option::Some(a) => {
                lemma_key_of_token_wf(toks[0]);
                lemma_parse_tokens_wf(toks.drop_first(), a);
            },
            Option::None => {},
        }
    }
}

/// No token names two different modifiers: the recognized spellings are
/// pairwise distinguishable, by length or by some letter.
proof fn lemma_modifier_classes_disjoint(t: Seq<char>)
    ensures
        is_ctrl_token(t) ==> !is_alt_token(t) && !is_shift_token(t) && !is_meta_token(t),
        is_alt_token(t) ==> !is_shift_token(t) && !is_meta_token(t),
        is_shift_token(t) ==> !is_meta_token(t),
{
    reveal_strlit("ctrl");
    reveal_strlit("control");
    reveal_strlit("commandorcontrol");
    reveal_strlit("commandorctrl");
    reveal_strlit("cmdorctrl");
    reveal_strlit("cmdorcontrol");
    reveal_strlit("alt");
    reveal_strlit("option");
    reveal_strlit("shift");
    reveal_strlit("super");
    reveal_strlit("cmd");
    reveal_strlit("command");
    if matches_ci(t, "alt"@) && matches_ci(t, "cmd"@) {
        assert(lower_code(t[0]) == lower_code("alt"@[0]));
        assert(lower_code(t[0]) == lower_code("cmd"@[0]));
    }
    if matches_ci(t, "shift"@) && matches_ci(t, "super"@) {
        assert(lower_code(t[1]) == lower_code("shift"@[1]));
        assert(lower_code(t[1]) == lower_code("super"@[1]));
    }
    if matches_ci(t, "control"@) && matches_ci(t, "command"@) {
        assert(lower_code(t[2]) == lower_code("control"@[2]));
        assert(lower_code(t[2]) == lower_code("command"@[2]));
    }
}

/// Over a cons'ed token sequence, a token satisfying `p` exists iff the head
/// satisfies it or one exists in the tail.
proof fn lemma_exists_cons(toks: Seq<Seq<char>>, p: spec_fn(Seq<char>) -> bool)
    requires
        toks.len() > 0,
    ensures
        (exists|i: int| 0 <= i < toks.len() && p(#[trigger] toks[i])) <==> (p(toks[0]) || exists|
            i: int,
        |
            0 <= i < toks.drop_first().len() && p(#[trigger] toks.drop_first()[i])),
{
    if exists|i: int| 0 <= i < toks.len() && p(#[trigger] toks[i]) {
        let i = choose|i: int| 0 <= i < toks.len() && p(#[trigger] toks[i]);
        if i > 0 {
            assert(toks.drop_first()[i - 1] == toks[i]);
        }
    }
    if exists|i: int| 0 <= i < toks.drop_first().len() && p(#[trigger] toks.drop_first()[i]) {
        let i = choose|i: int| 0 <= i < toks.drop_first().len() && p(#[trigger] toks.drop_first()[i]);
        assert(toks[i + 1] == toks.drop_first()[i]);
    }
}

/// Parsing modifier tokens followed by a trigger key succeeds, and each
/// modifier flag of the result records exactly whether some token named it.
proof fn lemma_parse_mods_then_key(toks: Seq<Seq<char>>, kt: Seq<char>, acc: ParseAcc)
    requires
        forall|i: int| 0 <= i < toks.len() ==> is_modifier_token(#[trigger] toks[i]),
        is_key_token(kt),
        acc.key is None,
    ensures
        parse_tokens(toks.push(kt), acc) == Option::Some(
            (ShortcutDescriptor {
                ctrl: acc.ctrl || exists|i: int|
                    0 <= i < toks.len() && is_ctrl_token(#[trigger] toks[i]),
                alt: acc.alt || exists|i: int|
                    0 <= i < toks.len() && is_alt_token(#[trigger] toks[i]),
                shift: acc.shift || exists|i: int|
                    0 <= i < toks.len() && is_shift_token(#[trigger] toks[i]),
                meta: acc.meta || exists|i: int|
                    0 <= i < toks.len() && is_meta_token(#[trigger] toks[i]),
                key: key_of_token(kt).unwrap(),
            }),
        ),
    decreases toks.len(),
{
    if toks.len() == 0 {
        assert(toks.push(kt)[0] == kt);
        assert(toks.push(kt).drop_first() =~= Seq::<Seq<char>>::empty());
        let a = acc_step(acc, kt).unwrap();
        assert(parse_tokens(Seq::<Seq<char>>::empty(), a) == acc_finish(a));
    } else {
        let t0 = toks[0];
        assert(is_modifier_token(t0));
        lemma_modifier_classes_disjoint(t0);
        assert(toks.push(kt)[0] == t0);
        assert(toks.push(kt).drop_first() =~= toks.drop_first().push(kt));
        let a = acc_step(acc, t0).unwrap();
        assert(forall|i: int|
            0 <= i < toks.drop_first().len() ==> is_modifier_token(
                #[trigger] toks.drop_first()[i],
            ));
        lemma_parse_mods_then_key(toks.drop_first(), kt, a);
        lemma_exists_cons(toks, |t: Seq<char>| is_ctrl_token(t));
        lemma_exists_cons(toks, |t: Seq<char>| is_alt_token(t));
        lemma_exists_cons(toks, |t: Seq<char>| is_shift_token(t));
        lemma_exists_cons(toks, |t: Seq<char>| is_meta_token(t));
    }
}

/// Over sequences holding the same tokens, the same predicates are witnessed.
proof fn lemma_exists_token_iff(a: Seq<Seq<char>>, b: Seq<Seq<char>>, p: spec_fn(Seq<char>) -> bool)
    requires
        forall|t: Seq<char>| a.contains(t) <==> b.contains(t),
    ensures
        (exists|i: int| 0 <= i < a.len() && p(#[trigger] a[i])) <==> (exists|i: int|
            0 <= i < b.len() && p(#[trigger] b[i])),
{
    if exists|i: int| 0 <= i < a.len() && p(#[trigger] a[i]) {
        let i = choose|i: int| 0 <= i < a.len() && p(#[trigger] a[i]);
        assert(a.contains(a[i]));
        assert(b.contains(a[i]));
        let j = choose|j: int| 0 <= j < b.len() && b[j] == a[i];
        assert(p(b[j]));
    }
    if exists|i: int| 0 <= i < b.len() && p(#[trigger] b[i]) {
        let i = choose|i: int| 0 <= i < b.len() && p(#[trigger] b[i]);
        assert(b.contains(b[i]));
        assert(a.contains(b[i]));
        let j = choose|j: int| 0 <= j < a.len() && a[j] == b[i];
        assert(p(a[j]));
    }
}

/// Modifier order is irrelevant. Two descriptors that list the same set of
/// modifier tokens — in any order, with any repetition — before the same
/// trigger key both parse, and to the same combination.
pub proof fn lemma_modifier_order_irrelevant(
    a: Seq<Seq<char>>,
    b: Seq<Seq<char>>,
    kt: Seq<char>,
)
    requires
        forall|i: int| 0 <= i < a.len() ==> is_modifier_token(#[trigger] a[i]),
        forall|i: int| 0 <= i < b.len() ==> is_modifier_token(#[trigger] b[i]),
        forall|t: Seq<char>| a.contains(t) <==> b.contains(t),
        is_key_token(kt),
    ensures
        parse_tokens(a.push(kt), acc_init()) == parse_tokens(b.push(kt), acc_init()),
        parse_tokens(a.push(kt), acc_init()) is Some,
{
    lemma_parse_mods_then_key(a, kt, acc_init());
    lemma_parse_mods_then_key(b, kt, acc_init());
    lemma_exists_token_iff(a, b, |t: Seq<char>| is_ctrl_token(t));
    lemma_exists_token_iff(a, b, |t: Seq<char>| is_alt_token(t));
    lemma_exists_token_iff(a, b, |t: Seq<char>| is_shift_token(t));
    lemma_exists_token_iff(a, b, |t: Seq<char>| is_meta_token(t));
}

fn lower_code_exec(c: char) -> (r: u32)
    ensures
        r == lower_code(c),
{
    let u = c as u32;
    if 65 <= u && u <= 90 {
        u + 32
    } else {
        u
    }
}

fn upper_code_exec(c: char) -> (r: u32)
    ensures
        r == upper_code(c),
{
    let u = c as u32;
    if 97 <= u && u <= 122 {
        u - 32
    } else {
        u
    }
}

fn is_letter_exec(c: char) -> (b: bool)
    ensures
        b == is_letter(c),
{
    let lc = lower_code_exec(c);
    97 <= lc && lc <= 122
}

fn is_digit_exec(c: char) -> (b: bool)
    ensures
        b == is_digit_char(c),
{
    let u = c as u32;
    48 <= u && u <= 57
}

/// Compare the slice `t[from..to]` against `lit`, ignoring ASCII case.
fn range_matches_ci(t: &Vec<char>, from: usize, to: usize, lit: &str) -> (b: bool)
    requires
        from <= to <= t.len(),
    ensures
        b == matches_ci(t@.subrange(from as int, to as int), lit@),
{
    let n = lit.unicode_len();
    if to - from != n {
        return false;
    }
    let mut i: usize = 0;
    while i < n
        invariant
            i <= n,
            n as nat == lit@.len(),
            from <= to <= t.len(),
            to - from == n,
            forall|j: int|
                0 <= j < i ==> lower_code(#[trigger] t@[from + j]) == lower_code(lit@[j]),
        decreases n - i,
    {
        if lower_code_exec(t[from + i]) != lower_code_exec(lit.get_char(i)) {
            assert(t@.subrange(from as int, to as int)[i as int] == t@[from + i]);
            return false;
        }
        i += 1;
    }
    assert forall|j: int| 0 <= j < n implies lower_code(
        #[trigger] t@.subrange(from as int, to as int)[j],
    ) == lower_code(lit@[j]) by {
        assert(t@.subrange(from as int, to as int)[j] == t@[from + j]);
    }
    true
}

/// Compare the whole token against `lit`, ignoring ASCII case.
fn token_matches_ci(t: &Vec<char>, lit: &str) -> (b: bool)
    ensures
        b == matches_ci(t@, lit@),
{
    proof {
        assert(t@.subrange(0, t@.len() as int) =~= t@);
    }
    range_matches_ci(t, 0, t.len(), lit)
}

fn is_ctrl_token_exec(t: &Vec<char>) -> (b: bool)
    ensures
        b == is_ctrl_token(t@),
{
    token_matches_ci(t, "ctrl") || token_matches_ci(t, "control")
        || token_matches_ci(t, "commandorcontrol") || token_matches_ci(t, "commandorctrl")
        || token_matches_ci(t, "cmdorctrl") || token_matches_ci(t, "cmdorcontrol")
}

fn is_alt_token_exec(t: &Vec<char>) -> (b: bool)
    ensures
        b == is_alt_token(t@),
{
    token_matches_ci(t, "alt") || token_matches_ci(t, "option")
}

fn is_shift_token_exec(t: &Vec<char>) -> (b: bool)
    ensures
        b == is_shift_token(t@),
{
    token_matches_ci(t, "shift")
}

fn is_meta_token_exec(t: &Vec<char>) -> (b: bool)
    ensures
        b == is_meta_token(t@),
{
    token_matches_ci(t, "super") || token_matches_ci(t, "cmd") || token_matches_ci(t, "command")
}

fn named_of_token_exec(t: &Vec<char>) -> (r: Option<NamedKey>)
    ensures
        r == named_of_token(t@),
{
    if token_matches_ci(t, "backquote") || token_matches_ci(t, "`") {
        Option::Some(NamedKey::Backquote)
    } else if token_matches_ci(t, "backslash") || token_matches_ci(t, "\\") {
        Option::Some(NamedKey::Backslash)
    } else if token_matches_ci(t, "bracketleft") || token_matches_ci(t, "[") {
        Option::Some(NamedKey::BracketLeft)
    } else if token_matches_ci(t, "bracketright") || token_matches_ci(t, "]") {
        Option::Some(NamedKey::BracketRight)
    } else if token_matches_ci(t, "pause") || token_matches_ci(t, "pausebreak") {
        Option::Some(NamedKey::Pause)
    } else if token_matches_ci(t, "comma") || token_matches_ci(t, ",") {
        Option::Some(NamedKey::Comma)
    } else if token_matches_ci(t, "equal") || token_matches_ci(t, "=") {
        Option::Some(NamedKey::Equal)
    } else if token_matches_ci(t, "minus") || token_matches_ci(t, "-") {
        Option::Some(NamedKey::Minus)
    } else if token_matches_ci(t, "period") || token_matches_ci(t, ".") {
        Option::Some(NamedKey::Period)
    } else if token_matches_ci(t, "quote") || token_matches_ci(t, "'") {
        Option::Some(NamedKey::Quote)
    } else if token_matches_ci(t, "semicolon") || token_matches_ci(t, ";") {
        Option::Some(NamedKey::Semicolon)
    } else if token_matches_ci(t, "slash") || token_matches_ci(t, "/") {
        Option::Some(NamedKey::Slash)
    } else if token_matches_ci(t, "backspace") {
        Option::Some(NamedKey::Backspace)
    } else if token_matches_ci(t, "capslock") {
        Option::Some(NamedKey::CapsLock)
    } else if token_matches_ci(t, "enter") {
        Option::Some(NamedKey::Enter)
    } else if token_matches_ci(t, "space") {
        Option::Some(NamedKey::Space)
    } else if token_matches_ci(t, "tab") {
        Option::Some(NamedKey::Tab)
    } else if token_matches_ci(t, "delete") {
        Option::Some(NamedKey::Delete)
    } else if token_matches_ci(t, "end") {
        Option::Some(NamedKey::End)
    } else if token_matches_ci(t, "home") {
        Option::Some(NamedKey::Home)
    } else if token_matches_ci(t, "insert") {
        Option::Some(NamedKey::Insert)
    } else if token_matches_ci(t, "pagedown") {
        Option::Some(NamedKey::PageDown)
    } else if token_matches_ci(t, "pageup") {
        Option::Some(NamedKey::PageUp)
    } else if token_matches_ci(t, "printscreen") {
        Option::Some(NamedKey::PrintScreen)
    } else if token_matches_ci(t, "scrolllock") {
        Option::Some(NamedKey::ScrollLock)
    } else if token_matches_ci(t, "arrowdown") || token_matches_ci(t, "down") {
        Option::Some(NamedKey::ArrowDown)
    } else if token_matches_ci(t, "arrowleft") || token_matches_ci(t, "left") {
        Option::Some(NamedKey::ArrowLeft)
    } else if token_matches_ci(t, "arrowright") || token_matches_ci(t, "right") {
        Option::Some(NamedKey::ArrowRight)
    } else if token_matches_ci(t, "arrowup") || token_matches_ci(t, "up") {
        Option::Some(NamedKey::ArrowUp)
    } else if token_matches_ci(t, "numlock") {
        Option::Some(NamedKey::NumLock)
    } else if token_matches_ci(t, "numpad0") || token_matches_ci(t, "num0") {
        Option::Some(NamedKey::Numpad0)
    } else if token_matches_ci(t, "numpad1") || token_matches_ci(t, "num1") {
        Option::Some(NamedKey::Numpad1)
    } else if token_matches_ci(t, "numpad2") || token_matches_ci(t, "num2") {
        Option::Some(NamedKey::Numpad2)
    } else if token_matches_ci(t, "numpad3") || token_matches_ci(t, "num3") {
        Option::Some(NamedKey::Numpad3)
    } else if token_matches_ci(t, "numpad4") || token_matches_ci(t, "num4") {
        Option::Some(NamedKey::Numpad4)
    } else if token_matches_ci(t, "numpad5") || token_matches_ci(t, "num5") {
        Option::Some(NamedKey::Numpad5)
    } else if token_matches_ci(t, "numpad6") || token_matches_ci(t, "num6") {
        Option::Some(NamedKey::Numpad6)
    } else if token_matches_ci(t, "numpad7") || token_matches_ci(t, "num7") {
        Option::Some(NamedKey::Numpad7)
    } else if token_matches_ci(t, "numpad8") || token_matches_ci(t, "num8") {
        Option::Some(NamedKey::Numpad8)
    } else if token_matches_ci(t, "numpad9") || token_matches_ci(t, "num9") {
        Option::Some(NamedKey::Numpad9)
    } else if token_matches_ci(t, "numpadadd") || token_matches_ci(t, "numadd")
        || token_matches_ci(t, "numpadplus") || token_matches_ci(t, "numplus") {
        Option::Some(NamedKey::NumpadAdd)
    } else if token_matches_ci(t, "numpaddecimal") || token_matches_ci(t, "numdecimal") {
        Option::Some(NamedKey::NumpadDecimal)
    } else if token_matches_ci(t, "numpaddivide") || token_matches_ci(t, "numdivide") {
        Option::Some(NamedKey::NumpadDivide)
    } else if token_matches_ci(t, "numpadenter") || token_matches_ci(t, "numenter") {
        Option::Some(NamedKey::NumpadEnter)
    } else if token_matches_ci(t, "numpadequal") || token_matches_ci(t, "numequal") {
        Option::Some(NamedKey::NumpadEqual)
    } else if token_matches_ci(t, "numpadmultiply") || token_matches_ci(t, "nummultiply") {
        Option::Some(NamedKey::NumpadMultiply)
    } else if token_matches_ci(t, "numpadsubtract") || token_matches_ci(t, "numsubtract") {
        Option::Some(NamedKey::NumpadSubtract)
    } else if token_matches_ci(t, "escape") || token_matches_ci(t, "esc") {
        Option::Some(NamedKey::Escape)
    } else if token_matches_ci(t, "audiovolumedown") || token_matches_ci(t, "volumedown") {
        Option::Some(NamedKey::AudioVolumeDown)
    } else if token_matches_ci(t, "audiovolumeup") || token_matches_ci(t, "volumeup") {
        Option::Some(NamedKey::AudioVolumeUp)
    } else if token_matches_ci(t, "audiovolumemute") || token_matches_ci(t, "volumemute") {
        Option::Some(NamedKey::AudioVolumeMute)
    } else if token_matches_ci(t, "mediaplay") {
        Option::Some(NamedKey::MediaPlay)
    } else if token_matches_ci(t, "mediapause") {
        Option::Some(NamedKey::MediaPause)
    } else if token_matches_ci(t, "mediaplaypause") {
        Option::Some(NamedKey::MediaPlayPause)
    } else if token_matches_ci(t, "mediastop") {
        Option::Some(NamedKey::MediaStop)
    } else if token_matches_ci(t, "mediatracknext") {
        Option::Some(NamedKey::MediaTrackNext)
    } else if token_matches_ci(t, "mediatrackprev") || token_matches_ci(t, "mediatrackprevious") {
        Option::Some(NamedKey::MediaTrackPrevious)
    } else {
        Option::None
    }
}

fn key_of_token_exec(t: &Vec<char>) -> (r: Option<TriggerKey>)
    ensures
        r == key_of_token(t@),
{
    let n = t.len();
    if n == 1 && is_letter_exec(t[0]) {
        return Option::Some(TriggerKey::Letter(upper_code_exec(t[0]) as u8));
    }
    if n == 1 && is_digit_exec(t[0]) {
        return Option::Some(TriggerKey::Digit((t[0] as u32) as u8));
    }
    if n == 4 && range_matches_ci(t, 0, 3, "key") && is_letter_exec(t[3]) {
        return Option::Some(TriggerKey::Letter(upper_code_exec(t[3]) as u8));
    }
    if n == 6 && range_matches_ci(t, 0, 5, "digit") && is_digit_exec(t[5]) {
        return Option::Some(TriggerKey::Digit((t[5] as u32) as u8));
    }
    if n == 2 && lower_code_exec(t[0]) == 102 {
        let u1 = t[1] as u32;
        if 49 <= u1 && u1 <= 57 {
            return Option::Some(TriggerKey::Function((u1 - 48) as u8));
        }
    }
    if n == 3 && lower_code_exec(t[0]) == 102 && t[1] as u32 == 49 {
        let u2 = t[2] as u32;
        if 48 <= u2 && u2 <= 57 {
            return Option::Some(TriggerKey::Function((u2 - 48 + 10) as u8));
        }
    }
    if n == 3 && lower_code_exec(t[0]) == 102 && t[1] as u32 == 50 {
        let u2 = t[2] as u32;
        if 48 <= u2 && u2 <= 52 {
            return Option::Some(TriggerKey::Function((u2 - 48 + 20) as u8));
        }
    }
    match named_of_token_exec(t) {
        Option::Some(k) => Option::Some(TriggerKey::Named(k)),
        Option::None => Option::None,
    }
}

fn acc_step_exec(acc: ParseAcc, t: &Vec<char>) -> (r: Option<ParseAcc>)
    ensures
        r == acc_step(acc, t@),
{
    if acc.key.is_some() {
        Option::None
    } else if is_ctrl_token_exec(t) {
        Option::Some(ParseAcc { ctrl: true, ..acc })
    } else if is_alt_token_exec(t) {
        Option::Some(ParseAcc { alt: true, ..acc })
    } else if is_shift_token_exec(t) {
        Option::Some(ParseAcc { shift: true, ..acc })
    } else if is_meta_token_exec(t) {
        Option::Some(ParseAcc { meta: true, ..acc })
    } else {
        match key_of_token_exec(t) {
            Option::Some(k) => Option::Some(ParseAcc { key: Option::Some(k), ..acc }),
            Option::None => Option::None,
        }
    }
}

/// Find the end of the token that starts at `start`: the next `'+'`, or the
/// end of the string.
/// With everything before `a` whitespace and a non-whitespace character at
/// `a` (or the end), trimming the front yields the suffix from `a`.
proof fn lemma_trim_front_at(t: Seq<char>, a: int)
    requires
        0 <= a <= t.len(),
        forall|j: int| 0 <= j < a ==> is_ws(#[trigger] t[j]),
        a < t.len() ==> !is_ws(t[a]),
    ensures
        trim_front(t) == t.subrange(a, t.len() as int),
    decreases t.len(),
{
    if a == 0 {
        assert(t.subrange(0, t.len() as int) =~= t);
    } else {
        assert(is_ws(t[0]));
        assert forall|j: int| 0 <= j < a - 1 implies is_ws(#[trigger] t.drop_first()[j]) by {
            assert(t.drop_first()[j] == t[j + 1]);
        }
        if a - 1 < t.drop_first().len() {
            assert(t.drop_first()[a - 1] == t[a]);
        }
        lemma_trim_front_at(t.drop_first(), a - 1);
        assert(t.drop_first().subrange(a - 1, t.drop_first().len() as int) =~= t.subrange(
            a,
            t.len() as int,
        ));
    }
}

/// With everything from `b` on whitespace and a non-whitespace character
/// just before `b` (or the start), trimming the back yields the prefix up
/// to `b`.
proof fn lemma_trim_back_at(t: Seq<char>, b: int)
    requires
        0 <= b <= t.len(),
        forall|j: int| b <= j < t.len() ==> is_ws(#[trigger] t[j]),
        b > 0 ==> !is_ws(t[b - 1]),
    ensures
        trim_back(t) == t.subrange(0, b),
    decreases t.len(),
{
    if b == t.len() {
        assert(t.subrange(0, t.len() as int) =~= t);
    } else {
        assert(is_ws(t[t.len() - 1]));
        assert forall|j: int| b <= j < t.drop_last().len() implies is_ws(
            #[trigger] t.drop_last()[j],
        ) by {
            assert(t.drop_last()[j] == t[j]);
        }
        if b > 0 {
            assert(t.drop_last()[b - 1] == t[b - 1]);
        }
        lemma_trim_back_at(t.drop_last(), b);
        assert(t.drop_last().subrange(0, b) =~= t.subrange(0, b));
    }
}

/// A split always yields at least one token.
proof fn lemma_split_plus_nonempty(s: Seq<char>)
    ensures
        split_plus(s).len() >= 1,
    decreases s.len(),
{
    if first_plus(s) < s.len() {
        lemma_split_plus_nonempty(s.subrange(first_plus(s) as int + 1, s.len() as int));
    }
}

fn is_ws_exec(c: char) -> (b: bool)
    ensures
        b == is_ws(c),
{
    let u = c as u32;
    u == 32 || (9 <= u && u <= 13)
}

/// Copy the token with its surrounding whitespace removed.
fn trim_exec(t: &Vec<char>) -> (r: Vec<char>)
    ensures
        r@ == trim_spec(t@),
{
    let n = t.len();
    let mut a: usize = 0;
    while a < n && is_ws_exec(t[a])
        invariant
            a <= n,
            n == t@.len(),
            forall|j: int| 0 <= j < a ==> is_ws(#[trigger] t@[j]),
        decreases n - a,
    {
        a += 1;
    }
    let mut b: usize = n;
    while b > a && is_ws_exec(t[b - 1])
        invariant
            a <= b <= n,
            n == t@.len(),
            forall|j: int| b <= j < n ==> is_ws(#[trigger] t@[j]),
        decreases b,
    {
        b -= 1;
    }
    let mut r: Vec<char> = Vec::new();
    let mut i = a;
    while i < b
        invariant
            a <= i <= b,
            b <= n,
            n == t@.len(),
            r@ =~= t@.subrange(a as int, i as int),
        decreases b - i,
    {
        r.push(t[i]);
        i += 1;
    }
    proof {
        lemma_trim_front_at(t@, a as int);
        let f = t@.subrange(a as int, t@.len() as int);
        assert forall|j: int| b - a <= j < f.len() implies is_ws(#[trigger] f[j]) by {
            assert(f[j] == t@[a + j]);
        }
        if b > a {
            assert(f[b - a - 1] == t@[b - 1]);
        }
        lemma_trim_back_at(f, b as int - a as int);
        assert(f.subrange(0, b as int - a as int) =~= t@.subrange(a as int, b as int));
        assert(r@ =~= t@.subrange(a as int, b as int));
    }
    r
}

fn scan_plus(s: &str, start: usize) -> (end: usize)
    requires
        start as nat <= s@.len(),
    ensures
        start <= end,
        end as nat <= s@.len(),
        first_plus(s@.subrange(start as int, s@.len() as int)) == end - start,
{
    let n = s.unicode_len();
    let mut end = start;
    while end < n && s.get_char(end) != '+'
        invariant
            n as nat == s@.len(),
            start <= end <= n,
            forall|j: int| start <= j < end ==> s@[j] != '+',
        decreases n - end,
    {
        end = end + 1;
    }
    proof {
        let rem = s@.subrange(start as int, s@.len() as int);
        assert forall|j: int| 0 <= j < end - start implies rem[j] != '+' by {
            assert(rem[j] == s@[start + j]);
        }
        lemma_first_plus_at(rem, end as int - start as int);
    }
    end
}

/// Copy the characters `s[start..end]` out as a token.
fn collect_token(s: &str, start: usize, end: usize) -> (tok: Vec<char>)
    requires
        start <= end,
        end as nat <= s@.len(),
    ensures
        tok@ == s@.subrange(start as int, end as int),
{
    let mut tok: Vec<char> = Vec::new();
    let mut i = start;
    while i < end
        invariant
            start <= i <= end,
            end as nat <= s@.len(),
            tok@ =~= s@.subrange(start as int, i as int),
        decreases end - i,
    {
        tok.push(s.get_char(i));
        i += 1;
    }
    tok
}

/// Parse the tokens of `s[start..]`, each trimmed of its surrounding
/// whitespace, the parse so far standing in `acc`.
fn parse_from(s: &str, start: usize, acc: ParseAcc) -> (r: Option<ShortcutDescriptor>)
    requires
        start as nat <= s@.len(),
    ensures
        r == parse_tokens(trim_all(split_plus(s@.subrange(start as int, s@.len() as int))), acc),
    decreases s@.len() - start,
{
    let n = s.unicode_len();
    let end = scan_plus(s, start);
    let tok = collect_token(s, start, end);
    let trimmed = trim_exec(&tok);
    let stepped = acc_step_exec(acc, &trimmed);
    let ghost rem = s@.subrange(start as int, s@.len() as int);
    let ghost m = trim_all(split_plus(rem));
    proof {
        assert(rem.subrange(0, end - start) =~= s@.subrange(start as int, end as int));
        if end < n {
            let nxt = s@.subrange(end as int + 1, s@.len() as int);
            assert(rem.subrange(end - start + 1, rem.len() as int) =~= nxt);
            assert(split_plus(rem) == seq![tok@] + split_plus(nxt));
            assert((seq![tok@] + split_plus(nxt))[0] == tok@);
            assert(m =~= seq![trim_spec(tok@)] + trim_all(split_plus(nxt)));
            assert(m.drop_first() =~= trim_all(split_plus(nxt)));
        } else {
            assert(rem =~= tok@);
            assert(split_plus(rem) == seq![tok@]);
            assert(m =~= seq![trim_spec(tok@)]);
            assert(m.drop_first() =~= Seq::<Seq<char>>::empty());
        }
        assert(m.len() >= 1);
        assert(m[0] == trim_spec(tok@));
        if acc_step(acc, trim_spec(tok@)) is None {
            assert(parse_tokens(m, acc) is None);
        } else {
            let a = acc_step(acc, trim_spec(tok@)).unwrap();
            assert(parse_tokens(m, acc) == parse_tokens(m.drop_first(), a));
            if end >= n {
                assert(parse_tokens(Seq::<Seq<char>>::empty(), a) == acc_finish(a));
            }
        }
    }
    match stepped {
        Option::None => Option::None,
        Option::Some(a) => {
            if end == n {
                match a.key {
                    Option::Some(k) => Option::Some(
                        ShortcutDescriptor {
                            ctrl: a.ctrl,
                            alt: a.alt,
                            shift: a.shift,
                            meta: a.meta,
                            key: k,
                        },
                    ),
                    Option::None => Option::None,
                }
            } else {
                parse_from(s, end + 1, a)
            }
        },
    }
}

/// Parse a textual shortcut descriptor into a combination, or report that
/// it is malformed. The result is exactly what `parse_spec` denotes.
pub fn parse_descriptor(s: &str) -> (r: Option<ShortcutDescriptor>)
    ensures
        r == parse_spec(s@),
        r matches Option::Some(d) ==> descriptor_wf(d),
{
    let n = s.unicode_len();
    let end0 = scan_plus(s, 0);
    let acc = ParseAcc { ctrl: false, alt: false, shift: false, meta: false, key: Option::None };
    proof {
        assert(s@.subrange(0, s@.len() as int) =~= s@);
    }
    if end0 == n {
        // no '+' in the descriptor: its one token stands as written
        let tok = collect_token(s, 0, n);
        let stepped = acc_step_exec(acc, &tok);
        proof {
            assert(tok@ == s@);
            assert(first_plus(s@) == s@.len());
            assert(split_plus(s@) == seq![s@]);
            assert(seq![s@][0] == s@);
            if acc_step(acc_init(), s@) is None {
                assert(parse_tokens(seq![s@], acc_init()) is None);
            } else {
                let a = acc_step(acc_init(), s@).unwrap();
                assert(seq![s@].drop_first() =~= Seq::<Seq<char>>::empty());
                assert(parse_tokens(seq![s@], acc_init()) == parse_tokens(
                    Seq::<Seq<char>>::empty(),
                    a,
                ));
                assert(parse_tokens(Seq::<Seq<char>>::empty(), a) == acc_finish(a));
            }
            lemma_parse_tokens_wf(split_plus(s@), acc_init());
        }
        match stepped {
            Option::Some(a) => match a.key {
                Option::Some(k) => Option::Some(
                    ShortcutDescriptor {
                        ctrl: a.ctrl,
                        alt: a.alt,
                        shift: a.shift,
                        meta: a.meta,
                        key: k,
                    },
                ),
                Option::None => Option::None,
            },
            Option::None => Option::None,
        }
    } else {
        proof {
            assert(first_plus(s@) == end0);
            lemma_split_plus_nonempty(s@.subrange(end0 as int + 1, s@.len() as int));
            assert(split_plus(s@) == seq![s@.subrange(0, end0 as int)] + split_plus(
                s@.subrange(end0 as int + 1, s@.len() as int),
            ));
            assert(split_plus(s@).len() >= 2);
            lemma_parse_tokens_wf(trim_all(split_plus(s@)), acc_init());
        }
        parse_from(s, 0, acc)
    }
}

} // verus!
