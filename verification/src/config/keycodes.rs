//! Key names: the table of names the config language knows for key codes, the modifier
//! names, and the characters that type with shift held.
use vstd::prelude::*;
use crate::config::text::{ascii_lower, chars_eq, eq_lit, spec_ascii_lower, str_chars};
use crate::key_range;

verus! {

broadcast use vstd::string::group_string_axioms;

/// The key name table. Each entry is one token: the names of one key code separated by
/// `|`. Entries take consecutive codes; a token `@` and a hexadecimal number sets the code
/// of the next entry.
pub const KEY_NAMES_TEXT: &'static str = "@0 Transparent @1 No_op|Nop @38 / @4 A B C D E F G H I J K L M N O P Q R S T U V W X Y Z
1 2 3 4 5 6 7 8 9 0 Enter|Return|ent|⏎ Escape|Esc|⎋ backspace|bksp|⌫ Tab|⇥
Spacebar|Space|spc|␣ Dash|minus|- Equals|equal|= LeftBrace|leftsquarebracket|[
RightBrace|rightsquarebracket\\] Backslash|\\ Hash|NonUsHash|# Semicolon|;
LeftApos|apostrophe|' GraveAccent|grave|` Comma|, Period|dot|. Forwardslash|slash|
CapsLock|caps|⇪ F1 F2 F3 F4 F5 F6 F7 F8 F9 F10 F11 F12 Printscreen|print ScrollLock
Pause Insert Home|⇱ PageUp|PgUp|⇞ Delete|del|⌦ End|⇲ PageDown|PgDn|⇟ Right|→ Left|←
Down|↓ Up|↑ NumLock|KpNumLock|⇭ KpForwardslash KpStar KpDash KpPlus KpEnter Kp1 Kp2 Kp3
Kp4 Kp5 Kp6 Kp7 Kp8 Kp9 Kp0 KpPeriod NonUsBackslash Application|App Power KpEquals F13
F14 F15 F16 F17 F18 F19 F20 F21 F22 F23 F24 Execute Help Menu Select Stop Again Undo Cut
Copy Paste Find Mute VolumeUp VolumeDown LockingCapsLock LockingNumLock
LockingScrollLock KpComma KpEqualSign International1 International2 International3
International4 International5 International6 International7 International8
International9 Lang1 Lang2 Lang3 Lang4 Lang5 Lang6 Lang7 Lang8 Lang9 AlternateErase
SysreqAttention Cancel Clear Prior KeyboardReturn Separator Out Oper ClearAgain
CrselProps Exsel A5 A6 A7 A8 A9 AA AB AC AD AE AF KpDouble0 KpTriple0 ThousandsSeparator
DecimalSeparator CurrencyUnit CurrencySubUnit KpLeftBracket KpRightBracket KpLeftBrace
KpRightBrace KpTab KpBackspace KpA KpB KpC KpD KpE KpF KpXor KpCaret KpPercentage KpLess
KpGreater KpAmpersand KpDoubleAmpersand KpBar KpDoubleBar KpColon KpHash KpSpace KpAt
KpBang KpMemoryStore KpMemoryRecall KpMemoryClear KpMemoryAdd KpMemorySubtract
KpMemoryMultiply KpMemoryDivide KpPlusMinus KpClear KpClearEntry KpBinary KpOctal
KpDecimal KpHexadecimal DE DF LeftControl|LCtrl|LCTL|⌃ LeftShift|LShift|LSFT|⇧
LeftAlt|LAlt LeftGui|LeftMeta|LGUI RightControl|RCtrl|RCtl RightShift|RShift|RSFT
RightAlt|AltGr|RAlt RightGui|RightMeta|RGUI Media_Play_Pause Media_Stop_CD
Media_Previous_Song Media_Next_Song Media_Eject_CD Media_Volume_Up Media_Volume_Down
Media_Mute Media_WWW Media_Back Media_Forward Media_Stop Media_Find Media_Scroll_Up
Media_Scroll_Down Media_Edit Media_Sleep Media_Coffee Media_Refresh Media_Calc @400
Mouse1 Mouse2 Mouse3 Mouse4 Mouse5 Mouse6 Mouse7 Mouse8 MouseLeft MouseRight MouseUp
MouseDown MouseScrollDown|MouseWheelDown MouseScrollUp|MouseWheelUp
MouseScrollRight|MouseWheelRight MouseScrollLeft|MouseWheelLeft MouseAccel1 MouseAccel2
MouseAccel3 @165 Snapshot @16F Brightness_Up @170 Brightness_Down @1B2 TC_Record @1B3
TC_Fast_Forward @1B4 TC_Rewind @1B5 TC_Next_Track @1B6 TC_Prev_Track @1B7 TC_Stop @1B8
TC_Eject @1B9 TC_Random_Play @1CC TC_Stop_Eject @1CD TC_Play_Pause @1E2 Audio_Mute @1E9
Audio_Vol_Up @1EA Audio_Vol_Down @283 AL_Cc_Config @28A AL_Email @292 AL_Calculator @294
AL_Local_Browser @29E AL_Lock @29F AL_Control_Panel @2CB AL_Assistant @2AE
AL_Keyboard_Layout @301 AC_New @302 AC_Open @303 AC_Close @304 AC_Exit @305 AC_Maximize
@306 AC_Minimize @307 AC_Save @308 AC_Print @309 AC_Properties @31A AC_Undo @31B AC_Copy
@31C AC_Cut @31D AC_Paste @31E AC_Select_All @31F AC_Find @321 AC_Search @323
AC_Homepage @324 AC_Back @325 AC_Forward @326 AC_Cancel @327 AC_Refresh @32A
AC_Bookmarks @39D AC_Next_Keyboard_Layout_Select @39F AC_Desktop_Show_All_Windows @12A
AC_Soft_Key_Left @3A1 System_Power_Down @3A2 System_Sleep|Sleep @3A3
System_Wake_Up|Wakeup @3AF System_Restart @12D System_Display_Toggle_Int_Ext @2000
Reset_Keyboard @2002 Clear_All @2003 Clear_Layers @2004 Stop_Active @2001
Reset_To_Usb_Boot";

/// The shift modifier bit.
pub const SHIFT_MOD: u8 = 2;

/// Pairs of characters on one key: the character typed unshifted, then shifted.
pub const SHIFT_PAIRS_TEXT: &'static str = "`~-_=+[{]}\\|;:'\",<.>/?1!2@3#4$5%6^7&8*9(0)";

/// Whether `c` separates the entries of the key name table.
pub open spec fn is_table_space(c: char) -> bool {
    c == ' ' || c == '\n'
}

/// The value of the hexadecimal digit `c`.
pub open spec fn hex_value(c: char) -> int {
    if '0' <= c <= '9' {
        c as int - '0' as int
    } else if 'a' <= c <= 'f' {
        c as int - 'a' as int + 10
    } else if 'A' <= c <= 'F' {
        c as int - 'A' as int + 10
    } else {
        0
    }
}

/// The code after `code`, wrapping.
pub open spec fn next_code(code: u16) -> u16 {
    ((code + 1) % 0x10000) as u16
}

/// The names and codes of the key name table text `t` from position `i`, given the names
/// read so far (`acc`), the name being read (`cur`), its code, whether a token is being
/// read and whether it is a code token.
pub open spec fn scan_names(
    t: Seq<char>,
    i: int,
    acc: Seq<(Seq<char>, u16)>,
    cur: Seq<char>,
    code: u16,
    in_tok: bool,
    hex: bool,
) -> Seq<(Seq<char>, u16)>
    decreases t.len() - i,
{
    if i >= t.len() {
        if in_tok && !hex {
            acc.push((cur, code))
        } else {
            acc
        }
    } else {
        let c = t[i];
        if is_table_space(c) {
            if in_tok && !hex {
                scan_names(t, i + 1, acc.push((cur, code)), Seq::empty(), next_code(code), false, false)
            } else {
                scan_names(t, i + 1, acc, cur, code, false, false)
            }
        } else if !in_tok && c == '@' {
            scan_names(t, i + 1, acc, cur, 0, true, true)
        } else if hex {
            scan_names(t, i + 1, acc, cur, ((code * 16 + hex_value(c)) % 0x10000) as u16, true, true)
        } else if c == '|' {
            scan_names(t, i + 1, acc.push((cur, code)), Seq::empty(), code, true, false)
        } else {
            scan_names(t, i + 1, acc, cur.push(c), code, true, false)
        }
    }
}

/// The key name table: every key name with its code, in table order.
pub open spec fn key_table() -> Seq<(Seq<char>, u16)> {
    scan_names(KEY_NAMES_TEXT@, 0, Seq::empty(), Seq::empty(), 0, false, false)
}

/// `s` without dashes and underscores, in ASCII lower case.
pub open spec fn spec_norm(s: Seq<char>) -> Seq<char>
    decreases s.len(),
{
    if s.len() == 0 {
        s
    } else {
        let r = spec_norm(s.drop_last());
        let c = s.last();
        if c == '-' || c == '_' {
            r
        } else {
            r.push(spec_ascii_lower(c))
        }
    }
}

/// The code of the first entry of `t` whose name is `name`, or, with `norm`, whose name
/// normalizes to `name`.
pub open spec fn find_name(t: Seq<(Seq<char>, u16)>, name: Seq<char>, norm: bool) -> Option<u16>
    decreases t.len(),
{
    if t.len() == 0 {
        None
    } else if (if norm {
        spec_norm(t[0].0) == name
    } else {
        t[0].0 == name
    }) {
        Some(t[0].1)
    } else {
        find_name(t.drop_first(), name, norm)
    }
}

/// `name` without a leading backslash, which escapes a name of more than one character.
pub open spec fn unescape(name: Seq<char>) -> Seq<char> {
    if name.len() > 1 && name[0] == '\\' {
        name.drop_first()
    } else {
        name
    }
}

/// The code the name `name` stands for: the entry named exactly so, or else the first
/// entry whose name is the same once dashes and underscores are dropped and case ignored.
pub open spec fn spec_key_code(name: Seq<char>) -> Option<u16> {
    let n = unescape(name);
    match find_name(key_table(), n, false) {
        Some(c) => Some(c),
        None => find_name(key_table(), spec_norm(n), true),
    }
}

/// An entry of the key name table, with where its name stands in the table text.
pub struct KeyName {
    pub name: Vec<char>,
    pub norm: Vec<char>,
    pub code: u16,
    pub start: usize,
    pub end: usize,
}

/// The entries of a table as names and codes.
pub open spec fn names_view(v: Seq<KeyName>) -> Seq<(Seq<char>, u16)> {
    Seq::new(v.len(), |k: int| (v[k].name@, v[k].code))
}

/// The key name table, read once.
pub struct KeyTable {
    pub names: Vec<KeyName>,
}

/// A name and its normal form.
pub fn normalize(s: &[char]) -> (r: Vec<char>)
    ensures
        r@ == spec_norm(s@),
{
    let mut out: Vec<char> = Vec::new();
    let mut i: usize = 0;
    while i < s.len()
        invariant
            i <= s@.len(),
            out@ == spec_norm(s@.subrange(0, i as int)),
        decreases s@.len() - i,
    {
        let c = s[i];
        assert(s@.subrange(0, i + 1).drop_last() =~= s@.subrange(0, i as int));
        if c != '-' && c != '_' {
            out.push(ascii_lower(c));
        }
        i = i + 1;
    }
    assert(s@.subrange(0, s@.len() as int) =~= s@);
    out
}

impl KeyTable {
    pub open spec fn wf(&self) -> bool {
        &&& names_view(self.names@) == key_table()
        &&& forall|k: int| #![trigger self.names@[k]] 0 <= k < self.names@.len() ==> {
            &&& self.names@[k].norm@ == spec_norm(self.names@[k].name@)
            &&& self.names@[k].start <= self.names@[k].end <= KEY_NAMES_TEXT@.len()
            &&& self.names@[k].name@ == KEY_NAMES_TEXT@.subrange(
                self.names@[k].start as int,
                self.names@[k].end as int,
            )
        }
    }

    /// Reads the key name table.
    pub fn new() -> (r: Self)
        ensures
            r.wf(),
    {
        let t = str_chars(KEY_NAMES_TEXT);
        let ghost tv = t@;
        let mut names: Vec<KeyName> = Vec::new();
        let mut cur: Vec<char> = Vec::new();
        let mut cur_start: usize = 0;
        let mut code: u16 = 0;
        let mut in_tok = false;
        let mut hex = false;
        let mut i: usize = 0;
        assert(names_view(names@) =~= Seq::<(Seq<char>, u16)>::empty());
        while i < t.len()
            invariant
                tv == t@,
                tv == KEY_NAMES_TEXT@,
                i <= t@.len(),
                scan_names(tv, i as int, names_view(names@), cur@, code, in_tok, hex) == key_table(),
                in_tok && !hex ==> cur_start <= i && cur@ == tv.subrange(cur_start as int, i as int),
                !(in_tok && !hex) ==> cur@ == Seq::<char>::empty(),
                hex ==> in_tok,
                forall|k: int| #![trigger names@[k]] 0 <= k < names@.len() ==> {
                    &&& names@[k].norm@ == spec_norm(names@[k].name@)
                    &&& names@[k].start <= names@[k].end <= tv.len()
                    &&& names@[k].name@ == tv.subrange(names@[k].start as int, names@[k].end as int)
                },
            decreases t@.len() - i,
        {
            let c = t[i];
            assert(c == tv[i as int]);
            let ghost k0 = code;
            if c == ' ' || c == '\n' {
                if in_tok && !hex {
                    let norm = normalize(cur.as_slice());
                    let ghost before = names@;
                    names.push(KeyName { name: cur, norm, code, start: cur_start, end: i });
                    assert(names_view(names@) =~= names_view(before).push((cur@, code)));
                    cur = Vec::new();
                    code = if code == u16::MAX { 0 } else { code + 1 };
                }
                in_tok = false;
                hex = false;
            } else if !in_tok && c == '@' {
                code = 0;
                in_tok = true;
                hex = true;
            } else if hex {
                let d: u16 = if '0' <= c && c <= '9' {
                    (c as u32 - '0' as u32) as u16
                } else if 'a' <= c && c <= 'f' {
                    (c as u32 - 'a' as u32 + 10) as u16
                } else if 'A' <= c && c <= 'F' {
                    (c as u32 - 'A' as u32 + 10) as u16
                } else {
                    0
                };
                assert(d as int == hex_value(c));
                let v: u32 = code as u32 * 16 + d as u32;
                assert(v as int == k0 * 16 + hex_value(c));
                code = (v % 0x10000) as u16;
            } else if c == '|' {
                if !in_tok {
                    cur_start = i;
                }
                assert(cur@ =~= tv.subrange(cur_start as int, i as int));
                let norm = normalize(cur.as_slice());
                let ghost before = names@;
                names.push(KeyName { name: cur, norm, code, start: cur_start, end: i });
                assert(names_view(names@) =~= names_view(before).push((cur@, code)));
                cur = Vec::new();
                cur_start = i + 1;
                in_tok = true;
            } else {
                if !in_tok {
                    cur_start = i;
                }
                cur.push(c);
                in_tok = true;
                assert(cur@ =~= tv.subrange(cur_start as int, i + 1));
            }
            i = i + 1;
        }
        if in_tok && !hex {
            let norm = normalize(cur.as_slice());
            let ghost before = names@;
            names.push(KeyName { name: cur, norm, code, start: cur_start, end: i });
            assert(names_view(names@) =~= names_view(before).push((cur@, code)));
        }
        KeyTable { names }
    }
}

impl KeyTable {
    /// The code of the first entry named `name`, or, with `norm`, whose name normalizes to
    /// `name`.
    pub fn find(&self, name: &[char], norm: bool) -> (r: Option<u16>)
        requires
            self.wf(),
        ensures
            r == find_name(key_table(), name@, norm),
    {
        let n = self.names.len();
        let ghost t = key_table();
        let mut i: usize = 0;
        assert(t.subrange(0, n as int) =~= t);
        while i < n
            invariant
                self.wf(),
                t == key_table(),
                n == self.names@.len(),
                n == t.len(),
                i <= n,
                find_name(t, name@, norm) == find_name(t.subrange(i as int, n as int), name@, norm),
            decreases n - i,
        {
            proof {
                let rest = t.subrange(i as int, n as int);
                assert(rest.drop_first() =~= t.subrange(i + 1, n as int));
                assert(rest[0] == t[i as int]);
                assert(t[i as int] == (self.names@[i as int].name@, self.names@[i as int].code));
                assert(self.names@[i as int].norm@ == spec_norm(self.names@[i as int].name@));
            }
            let e = &self.names[i];
            let hit = if norm {
                chars_eq(e.norm.as_slice(), name)
            } else {
                chars_eq(e.name.as_slice(), name)
            };
            if hit {
                return Some(e.code);
            }
            i = i + 1;
        }
        assert(t.subrange(n as int, n as int) =~= Seq::<(Seq<char>, u16)>::empty());
        None
    }

    /// The code the name `name` stands for.
    pub fn key_code(&self, name: &[char]) -> (r: Option<u16>)
        requires
            self.wf(),
        ensures
            r == spec_key_code(name@),
    {
        let n: &[char] = if name.len() > 1 && name[0] == '\\' {
            vstd::slice::slice_subrange(name, 1, name.len())
        } else {
            name
        };
        assert(n@ =~= unescape(name@));
        match self.find(n, false) {
            Some(c) => Some(c),
            None => {
                let normal = normalize(n);
                self.find(normal.as_slice(), true)
            },
        }
    }

    /// The basic key code for the character `c`; 0 for none.
    pub fn char_to_code(&self, c: char) -> (r: u16)
        requires
            self.wf(),
        ensures
            r == spec_char_to_code(c),
    {
        if 'a' <= c && c <= 'z' {
            (c as u32 - 'a' as u32 + 4) as u16
        } else if '1' <= c && c <= '9' {
            (c as u32 - '1' as u32 + 30) as u16
        } else if c == '0' {
            39
        } else {
            let name: [char; 1] = [c];
            assert(name@ =~= seq![c]);
            match self.key_code(name.as_slice()) {
                Some(k) => k,
                None => 0,
            }
        }
    }
}

/// The basic key code for the character `c`: letters and digits directly, any other
/// character by the key named by it; 0 for none.
pub open spec fn spec_char_to_code(c: char) -> u16 {
    if 'a' <= c <= 'z' {
        (c as int - 'a' as int + 4) as u16
    } else if '1' <= c <= '9' {
        (c as int - '1' as int + 30) as u16
    } else if c == '0' {
        39
    } else {
        match spec_key_code(seq![c]) {
            Some(k) => k,
            None => 0,
        }
    }
}

/// The code the key name `name` stands for.
pub fn key_code(name: &str) -> (r: Option<u16>)
    ensures
        r == spec_key_code(name@),
{
    let chars = str_chars(name);
    KeyTable::new().key_code(chars.as_slice())
}

/// The code of the key name `c`, which must be one.
pub fn kc(c: &str) -> (r: u16)
    requires
        spec_key_code(c@) is Some,
    ensures
        Some(r) == spec_key_code(c@),
{
    match key_code(c) {
        Some(code) => code,
        None => 0,
    }
}

/// The basic key code for the character `c`; 0 for none.
pub fn char_to_code(c: char) -> (r: u16)
    ensures
        r == spec_char_to_code(c),
{
    KeyTable::new().char_to_code(c)
}

/// The character typed on the key of `c` without shift: the first of the pair in the shift
/// pairs `p` whose second is `c`; `c` itself where there is none.
pub open spec fn shift_lookup(p: Seq<char>, c: char) -> char
    decreases p.len(),
{
    if p.len() < 2 {
        c
    } else if p[1] == c {
        p[0]
    } else {
        shift_lookup(p.subrange(2, p.len() as int), c)
    }
}

/// The character typed on the key of `c` without shift.
pub open spec fn spec_unshifted_char_code(c: char) -> char {
    if 'A' <= c <= 'Z' {
        spec_ascii_lower(c)
    } else {
        shift_lookup(SHIFT_PAIRS_TEXT@, c)
    }
}

/// The character typed on the key of `c` without shift: a capital letter's small letter,
/// a shifted symbol's unshifted one, else `c`.
pub fn unshifted_char_code(c: char) -> (r: char)
    ensures
        r == spec_unshifted_char_code(c),
        'A' <= c <= 'Z' ==> r as u32 == c as u32 + 32,
        c == '~' ==> r == '`',
        c == '_' ==> r == '-',
        c == '+' ==> r == '=',
        c == '{' ==> r == '[',
        c == '}' ==> r == ']',
        c == '|' ==> r == '\\',
        c == ':' ==> r == ';',
        c == '"' ==> r == '\'',
        c == '<' ==> r == ',',
        c == '>' ==> r == '.',
        c == '?' ==> r == '/',
        c == '!' ==> r == '1',
        c == '@' ==> r == '2',
        c == '#' ==> r == '3',
        c == '$' ==> r == '4',
        c == '%' ==> r == '5',
        c == '^' ==> r == '6',
        c == '&' ==> r == '7',
        c == '*' ==> r == '8',
        c == '(' ==> r == '9',
        c == ')' ==> r == '0',
        !('A' <= c <= 'Z') && c != '~' && c != '_' && c != '+' && c != '{' && c != '}' && c != '|'
            && c != ':' && c != '"' && c != '<' && c != '>' && c != '?' && c != '!' && c != '@' && c != '#'
            && c != '$' && c != '%' && c != '^' && c != '&' && c != '*' && c != '(' && c != ')'
            ==> r == c,
{
    proof {
        law_unshifted_char_code(c);
    }
    if 'A' <= c && c <= 'Z' {
        return ascii_lower(c);
    }
    let p = str_chars(SHIFT_PAIRS_TEXT);
    let ghost pv = p@;
    let n = p.len();
    let mut k: usize = 0;
    assert(pv.subrange(0, n as int) =~= pv);
    while n - k >= 2
        invariant
            pv == p@,
            pv == SHIFT_PAIRS_TEXT@,
            n == pv.len(),
            k <= n,
            shift_lookup(pv, c) == shift_lookup(pv.subrange(k as int, n as int), c),
            !('A' <= c <= 'Z'),
        decreases n - k,
    {
        proof {
            let rest = pv.subrange(k as int, n as int);
            assert(rest.subrange(2, rest.len() as int) =~= pv.subrange(k + 2, n as int));
            assert(rest[0] == pv[k as int] && rest[1] == pv[k + 1]);
        }
        if p[k + 1] == c {
            assert(shift_lookup(pv.subrange(k as int, n as int), c) == pv[k as int]);
            proof {
                law_unshifted_char_code(c);
            }
            return p[k];
        }
        k = k + 2;
    }
    proof {
        law_unshifted_char_code(c);
    }
    c
}

/// The first pair of the shift pairs `p` whose second is `c` gives its first.
proof fn lemma_shift_lookup_found(p: Seq<char>, c: char, k: int)
    requires
        0 <= k,
        k % 2 == 0,
        k + 1 < p.len(),
        p[k + 1] == c,
        forall|j: int| 0 < j < k && j % 2 == 1 ==> #[trigger] p[j] != c,
    ensures
        shift_lookup(p, c) == p[k],
    decreases k,
{
    if k > 0 {
        assert(p[1] != c);
        let q = p.subrange(2, p.len() as int);
        assert forall|j: int| 0 < j < k - 2 && j % 2 == 1 implies #[trigger] q[j] != c by {
            assert(q[j] == p[j + 2]);
        }
        lemma_shift_lookup_found(q, c, k - 2);
    }
}

/// No pair of the shift pairs `p` has `c` second: `c` stays.
proof fn lemma_shift_lookup_absent(p: Seq<char>, c: char)
    requires
        forall|j: int| 0 < j < p.len() && j % 2 == 1 ==> #[trigger] p[j] != c,
    ensures
        shift_lookup(p, c) == c,
    decreases p.len(),
{
    if p.len() >= 2 {
        assert(p[1] != c);
        let q = p.subrange(2, p.len() as int);
        assert forall|j: int| 0 < j < q.len() && j % 2 == 1 implies #[trigger] q[j] != c by {
            assert(q[j] == p[j + 2]);
        }
        lemma_shift_lookup_absent(q, c);
    }
}

/// The character on the key of `c` without shift, as a US keyboard has it: a capital
/// letter gives its small letter, 32 code points on; each shifted symbol gives the symbol
/// under it on the same key; every other character stays as it is.
pub proof fn law_unshifted_char_code(c: char)
    ensures
        'A' <= c <= 'Z' ==> spec_unshifted_char_code(c) as u32 == c as u32 + 32,
        c == '~' ==> spec_unshifted_char_code(c) == '`',
        c == '_' ==> spec_unshifted_char_code(c) == '-',
        c == '+' ==> spec_unshifted_char_code(c) == '=',
        c == '{' ==> spec_unshifted_char_code(c) == '[',
        c == '}' ==> spec_unshifted_char_code(c) == ']',
        c == '|' ==> spec_unshifted_char_code(c) == '\\',
        c == ':' ==> spec_unshifted_char_code(c) == ';',
        c == '"' ==> spec_unshifted_char_code(c) == '\'',
        c == '<' ==> spec_unshifted_char_code(c) == ',',
        c == '>' ==> spec_unshifted_char_code(c) == '.',
        c == '?' ==> spec_unshifted_char_code(c) == '/',
        c == '!' ==> spec_unshifted_char_code(c) == '1',
        c == '@' ==> spec_unshifted_char_code(c) == '2',
        c == '#' ==> spec_unshifted_char_code(c) == '3',
        c == '$' ==> spec_unshifted_char_code(c) == '4',
        c == '%' ==> spec_unshifted_char_code(c) == '5',
        c == '^' ==> spec_unshifted_char_code(c) == '6',
        c == '&' ==> spec_unshifted_char_code(c) == '7',
        c == '*' ==> spec_unshifted_char_code(c) == '8',
        c == '(' ==> spec_unshifted_char_code(c) == '9',
        c == ')' ==> spec_unshifted_char_code(c) == '0',
        !('A' <= c <= 'Z') && c != '~' && c != '_' && c != '+' && c != '{' && c != '}' && c != '|'
            && c != ':' && c != '"' && c != '<' && c != '>' && c != '?' && c != '!' && c != '@' && c != '#'
            && c != '$' && c != '%' && c != '^' && c != '&' && c != '*' && c != '(' && c != ')'
            ==> spec_unshifted_char_code(c) == c,
{
    let p = SHIFT_PAIRS_TEXT@;
    reveal_strlit("`~-_=+[{]}\\|;:'\",<.>/?1!2@3#4$5%6^7&8*9(0)");
    assert(p.len() == 42);
    if 'A' <= c <= 'Z' {
    } else if c == '~' {
        lemma_shift_lookup_found(p, c, 0);
    } else if c == '_' {
        lemma_shift_lookup_found(p, c, 2);
    } else if c == '+' {
        lemma_shift_lookup_found(p, c, 4);
    } else if c == '{' {
        lemma_shift_lookup_found(p, c, 6);
    } else if c == '}' {
        lemma_shift_lookup_found(p, c, 8);
    } else if c == '|' {
        lemma_shift_lookup_found(p, c, 10);
    } else if c == ':' {
        lemma_shift_lookup_found(p, c, 12);
    } else if c == '"' {
        lemma_shift_lookup_found(p, c, 14);
    } else if c == '<' {
        lemma_shift_lookup_found(p, c, 16);
    } else if c == '>' {
        lemma_shift_lookup_found(p, c, 18);
    } else if c == '?' {
        lemma_shift_lookup_found(p, c, 20);
    } else if c == '!' {
        lemma_shift_lookup_found(p, c, 22);
    } else if c == '@' {
        lemma_shift_lookup_found(p, c, 24);
    } else if c == '#' {
        lemma_shift_lookup_found(p, c, 26);
    } else if c == '$' {
        lemma_shift_lookup_found(p, c, 28);
    } else if c == '%' {
        lemma_shift_lookup_found(p, c, 30);
    } else if c == '^' {
        lemma_shift_lookup_found(p, c, 32);
    } else if c == '&' {
        lemma_shift_lookup_found(p, c, 34);
    } else if c == '*' {
        lemma_shift_lookup_found(p, c, 36);
    } else if c == '(' {
        lemma_shift_lookup_found(p, c, 38);
    } else if c == ')' {
        lemma_shift_lookup_found(p, c, 40);
    } else {
        assert forall|j: int| 0 < j < p.len() && j % 2 == 1 implies #[trigger] p[j] != c by {
            assert(j == 1 || j == 3 || j == 5 || j == 7 || j == 9 || j == 11 || j == 13 || j == 15 || j == 17
                || j == 19 || j == 21 || j == 23 || j == 25 || j == 27 || j == 29 || j == 31 || j == 33 || j == 35
                || j == 37 || j == 39 || j == 41);
        }
        lemma_shift_lookup_absent(p, c);
    }
}

/// The base code of the action named `name`: the layer actions and the macros.
pub open spec fn spec_action_code(name: Seq<char>) -> Option<u16> {
    if name == "layer"@ {
        Some(key_range::LAYER)
    } else if name == "toggle"@ {
        Some(key_range::TOGGLE)
    } else if name == "setlayout"@ {
        Some(key_range::SET_LAYOUT)
    } else if name == "oneshot"@ {
        Some(key_range::ONESHOT)
    } else if name == "overload"@ || name == "dualaction"@ || name == "macro"@ || name == "hold"@
        || name == "release"@ || name == "unicode"@ || name == "delay"@ {
        Some(key_range::MACROS_MIN)
    } else {
        None
    }
}

/// The base code of the action named `name`.
pub fn action_code_chars(name: &[char]) -> (r: Option<u16>)
    ensures
        r == spec_action_code(name@),
{
    if eq_lit(name, "layer") {
        Some(key_range::LAYER)
    } else if eq_lit(name, "toggle") {
        Some(key_range::TOGGLE)
    } else if eq_lit(name, "setlayout") {
        Some(key_range::SET_LAYOUT)
    } else if eq_lit(name, "oneshot") {
        Some(key_range::ONESHOT)
    } else if eq_lit(name, "overload") || eq_lit(name, "dualaction") || eq_lit(name, "macro")
        || eq_lit(name, "hold") || eq_lit(name, "release") || eq_lit(name, "unicode") || eq_lit(
        name,
        "delay",
    ) {
        Some(key_range::MACROS_MIN)
    } else {
        None
    }
}

/// The base code of the action named `name`.
pub fn action_code(name: &str) -> (r: Option<u16>)
    ensures
        r == spec_action_code(name@),
{
    let chars = str_chars(name);
    action_code_chars(chars.as_slice())
}

/// The base code of a modifier macro: every name may be one.
pub fn modifier_macro(_name: &str) -> (r: Option<u16>)
    ensures
        r == Some(key_range::MACROS_MIN),
{
    Some(key_range::MACROS_MIN)
}

/// The modifier named `name`, as its bit.
pub open spec fn modifier_bit(name: Seq<char>) -> Option<u8> {
    if name == "C"@ {
        Some(1)
    } else if name == "S"@ {
        Some(2)
    } else if name == "A"@ {
        Some(4)
    } else if name == "G"@ {
        Some(8)
    } else if name == "RC"@ {
        Some(16)
    } else if name == "RS"@ {
        Some(32)
    } else if name == "RA"@ {
        Some(64)
    } else if name == "RG"@ {
        Some(128)
    } else {
        None
    }
}

fn modifier_bit_exec(name: &[char]) -> (r: Option<u8>)
    ensures
        r == modifier_bit(name@),
{
    if eq_lit(name, "C") {
        Some(1)
    } else if eq_lit(name, "S") {
        Some(2)
    } else if eq_lit(name, "A") {
        Some(4)
    } else if eq_lit(name, "G") {
        Some(8)
    } else if eq_lit(name, "RC") {
        Some(16)
    } else if eq_lit(name, "RS") {
        Some(32)
    } else if eq_lit(name, "RA") {
        Some(64)
    } else if eq_lit(name, "RG") {
        Some(128)
    } else {
        None
    }
}

/// The bits of the dash-separated modifier names in `t` from position `i`, the current name
/// starting at `seg`, given the bits `bm` of the names before it.
pub open spec fn bit_map_from(t: Seq<char>, i: int, seg: int, bm: u8) -> Option<u8>
    decreases t.len() - i,
{
    if i >= t.len() {
        match modifier_bit(t.subrange(seg, t.len() as int)) {
            Some(b) => Some(bm | b),
            None => None,
        }
    } else if t[i] == '-' {
        match modifier_bit(t.subrange(seg, i)) {
            Some(b) => bit_map_from(t, i + 1, i + 1, bm | b),
            None => None,
        }
    } else {
        bit_map_from(t, i + 1, seg, bm)
    }
}

/// The modifier bits that the dash-separated modifier names `t` stand for; `None` where one
/// is no modifier name. No names stand for no modifiers.
pub open spec fn spec_modifiers_to_bit_map(t: Seq<char>) -> Option<u8> {
    if t.len() == 0 {
        Some(0)
    } else {
        bit_map_from(t, 0, 0, 0)
    }
}

/// The modifier bits that the dash-separated modifier names `text` stand for.
pub fn modifiers_to_bit_map_chars(text: &[char]) -> (r: Option<u8>)
    ensures
        r == spec_modifiers_to_bit_map(text@),
{
    if text.len() == 0 {
        return Some(0);
    }
    let n = text.len();
    let mut bm: u8 = 0;
    let mut seg: usize = 0;
    let mut i: usize = 0;
    while i < n
        invariant
            n == text@.len(),
            seg <= i <= n,
            bit_map_from(text@, 0, 0, 0) == bit_map_from(text@, i as int, seg as int, bm),
        decreases n - i,
    {
        if text[i] == '-' {
            let part = vstd::slice::slice_subrange(text, seg, i);
            match modifier_bit_exec(part) {
                Some(b) => {
                    bm = bm | b;
                    seg = i + 1;
                },
                None => {
                    return None;
                },
            }
        }
        i = i + 1;
    }
    let part = vstd::slice::slice_subrange(text, seg, n);
    match modifier_bit_exec(part) {
        Some(b) => Some(bm | b),
        None => None,
    }
}

/// The modifier bits that the dash-separated modifier names `text` stand for.
pub fn modifiers_to_bit_map(text: &str) -> (r: Option<u8>)
    ensures
        r == spec_modifiers_to_bit_map(text@),
{
    let chars = str_chars(text);
    modifiers_to_bit_map_chars(chars.as_slice())
}

/// The name of modifier bit `i`.
pub open spec fn modifier_name(i: int) -> Seq<char> {
    if i == 0 {
        "C"@
    } else if i == 1 {
        "S"@
    } else if i == 2 {
        "A"@
    } else if i == 3 {
        "G"@
    } else if i == 4 {
        "RC"@
    } else if i == 5 {
        "RS"@
    } else if i == 6 {
        "RA"@
    } else {
        "RG"@
    }
}

fn modifier_name_exec(i: usize) -> (r: &'static str)
    ensures
        r@ == modifier_name(i as int),
{
    if i == 0 {
        "C"
    } else if i == 1 {
        "S"
    } else if i == 2 {
        "A"
    } else if i == 3 {
        "G"
    } else if i == 4 {
        "RC"
    } else if i == 5 {
        "RS"
    } else if i == 6 {
        "RA"
    } else {
        "RG"
    }
}

/// The names of the modifiers `bits` from bit `i` on, dash-separated, after the names `acc`.
pub open spec fn mods_string(bits: u8, i: int, acc: Seq<char>) -> Seq<char>
    decreases 8 - i,
{
    if i >= 8 || bits == 0 {
        acc
    } else {
        let acc2 = if bits & 1 == 1 {
            if acc.len() > 0 {
                acc + "-"@ + modifier_name(i)
            } else {
                acc + modifier_name(i)
            }
        } else {
            acc
        };
        mods_string(bits >> 1, i + 1, acc2)
    }
}

/// The names of the modifiers `modifiers`, dash-separated, lowest bit first.
pub fn modifiers_to_string(modifiers: u8) -> (r: String)
    ensures
        r@ == mods_string(modifiers, 0, Seq::empty()),
{
    let mut ans = String::new();
    let mut bits = modifiers;
    let mut i: usize = 0;
    while i < 8
        invariant
            i <= 8,
            mods_string(modifiers, 0, Seq::empty()) == mods_string(bits, i as int, ans@),
        decreases 8 - i,
    {
        if bits == 0 {
            return ans;
        }
        if bits & 1 == 1 {
            if ans.as_str().unicode_len() > 0 {
                ans.append("-");
            }
            ans.append(modifier_name_exec(i));
        }
        bits = bits >> 1;
        i = i + 1;
    }
    ans
}

/// A key name and its code.
#[derive(Debug, Clone, Copy)]
pub struct KeycodeDescriptor {
    pub name: &'static str,
    pub code: u16,
}

/// Every key name with its code, in table order.
pub fn keycodes_iter() -> (r: Vec<KeycodeDescriptor>)
    ensures
        r@.len() == key_table().len(),
        forall|k: int| 0 <= k < r@.len() ==> r@[k].name@ == key_table()[k].0 && r@[k].code
            == key_table()[k].1,
{
    let table = KeyTable::new();
    let mut out: Vec<KeycodeDescriptor> = Vec::new();
    let mut i: usize = 0;
    while i < table.names.len()
        invariant
            table.wf(),
            i <= table.names@.len(),
            out@.len() == i,
            forall|k: int| 0 <= k < i ==> out@[k].name@ == key_table()[k].0 && out@[k].code
                == key_table()[k].1,
        decreases table.names@.len() - i,
    {
        let e = &table.names[i];
        assert(key_table()[i as int] == names_view(table.names@)[i as int]);
        let name = KEY_NAMES_TEXT.substring_char(e.start, e.end);
        out.push(KeycodeDescriptor { name, code: e.code });
        i = i + 1;
    }
    out
}

} // verus!

verus! {

/// The modifier bits from bit `i` up.
pub open spec fn mask_from(i: u8) -> u8 {
    if i >= 8 {
        0
    } else {
        (0xffu8 << i) as u8
    }
}

/// The bits of the dash-separated modifier names `t` added to `bm`; no names add none.
pub open spec fn names_bits(t: Seq<char>, bm: u8) -> Option<u8> {
    if t.len() == 0 {
        Some(bm)
    } else {
        bit_map_from(t, 0, 0, bm)
    }
}

/// `s` after a dash, or nothing when `s` is empty.
pub open spec fn after_dash(s: Seq<char>) -> Seq<char> {
    if s.len() > 0 {
        "-"@ + s
    } else {
        Seq::empty()
    }
}

proof fn lemma_mask_bits(m: u8, i: u8, bm: u8)
    by (bit_vector)
    requires
        i < 8,
    ensures
        (m >> i) >> 1u8 == m >> ((i + 1) as u8),
        (m >> i) == 0 ==> m & ((0xffu8 << i) as u8) == 0,
        i < 7 ==> ((0xffu8 << ((i + 1) as u8)) as u8) == ((0xffu8 << i) as u8) & !((1u8 << i) as u8),
        i == 7 ==> ((0xffu8 << i) as u8) & !((1u8 << i) as u8) == 0,
        (m >> i) & 1u8 == 1u8 ==> bm | (m & ((0xffu8 << i) as u8)) == (bm | ((1u8 << i) as u8)) | (m
            & (((0xffu8 << i) as u8) & !((1u8 << i) as u8))),
        (m >> i) & 1u8 != 1u8 ==> m & ((0xffu8 << i) as u8) == m & (((0xffu8 << i) as u8) & !((1u8 << i) as u8)),
        (m >> 8u8) == 0,
        ((0xffu8 << 0u8) as u8) == 0xffu8,
        m & 0xffu8 == m,
        bm | 0u8 == bm,
        bm & 0u8 == 0u8,
        m & 0u8 == 0u8,
        0u8 | m == m,
        m >> 0u8 == m,
        (1u8 << 0u8) == 1u8 && (1u8 << 1u8) == 2u8 && (1u8 << 2u8) == 4u8 && (1u8 << 3u8) == 8u8 && (1u8 << 4u8)
            == 16u8 && (1u8 << 5u8) == 32u8 && (1u8 << 6u8) == 64u8 && (1u8 << 7u8) == 128u8,
{
}

/// The name of modifier bit `i` holds no dash, is not empty, and is the name of that bit.
proof fn lemma_modifier_name(i: int)
    requires
        0 <= i < 8,
    ensures
        1 <= modifier_name(i).len() <= 2,
        forall|k: int| 0 <= k < modifier_name(i).len() ==> modifier_name(i)[k] != '-',
        modifier_bit(modifier_name(i)) == Some(((1u8 << (i as u8)) as u8)),
{
    reveal_strlit("C");
    reveal_strlit("S");
    reveal_strlit("A");
    reveal_strlit("G");
    reveal_strlit("RC");
    reveal_strlit("RS");
    reveal_strlit("RA");
    reveal_strlit("RG");
    lemma_mask_bits(0, 0, 0);
    assert("C"@[0] != "S"@[0] && "C"@[0] != "A"@[0] && "C"@[0] != "G"@[0] && "S"@[0] != "A"@[0]
        && "S"@[0] != "G"@[0] && "A"@[0] != "G"@[0]);
    assert("RC"@[1] != "RS"@[1] && "RC"@[1] != "RA"@[1] && "RC"@[1] != "RG"@[1] && "RS"@[1] != "RA"@[1]
        && "RS"@[1] != "RG"@[1] && "RA"@[1] != "RG"@[1]);
}

/// Reading names from inside `u` placed after `p` is reading them from `u`.
proof fn lemma_bit_map_shift(p: Seq<char>, u: Seq<char>, j: int, seg: int, bm: u8)
    requires
        0 <= seg <= j <= u.len(),
    ensures
        bit_map_from(p + u, p.len() + j, p.len() + seg, bm) == bit_map_from(u, j, seg, bm),
    decreases u.len() - j,
{
    let t = p + u;
    if j >= u.len() {
        assert(t.subrange(p.len() + seg, t.len() as int) =~= u.subrange(seg, u.len() as int));
    } else {
        assert(t[p.len() + j] == u[j]);
        if u[j] == '-' {
            assert(t.subrange(p.len() + seg, p.len() + j) =~= u.subrange(seg, j));
            match modifier_bit(u.subrange(seg, j)) {
                Some(b) => {
                    lemma_bit_map_shift(p, u, j + 1, j + 1, bm | b);
                },
                None => {},
            }
        } else {
            lemma_bit_map_shift(p, u, j + 1, seg, bm);
        }
    }
}

/// Reading past a name without a dash in it moves on to the next position.
proof fn lemma_bit_map_skip(t: Seq<char>, n: Seq<char>, j: int, bm: u8)
    requires
        n.len() <= t.len(),
        t.subrange(0, n.len() as int) == n,
        0 <= j <= n.len(),
        forall|k: int| 0 <= k < n.len() ==> n[k] != '-',
    ensures
        bit_map_from(t, j, 0, bm) == bit_map_from(t, n.len() as int, 0, bm),
    decreases n.len() - j,
{
    if j < n.len() {
        assert(t[j] == t.subrange(0, n.len() as int)[j]);
        lemma_bit_map_skip(t, n, j + 1, bm);
    }
}

/// The modifier names of `bits` from bit `i` on, after names `acc`, are `acc` followed by
/// them after a dash.
proof fn lemma_mods_string_acc(bits: u8, i: int, acc: Seq<char>)
    requires
        acc.len() > 0,
        0 <= i <= 8,
    ensures
        mods_string(bits, i, acc) == acc + after_dash(mods_string(bits, i, Seq::empty())),
    decreases 8 - i,
{
    if i >= 8 || bits == 0 {
        assert(acc + after_dash(Seq::<char>::empty()) =~= acc);
    } else {
        lemma_modifier_name(i);
        let n = modifier_name(i);
        lemma_mods_string_acc(bits >> 1, i + 1, n);
        if bits & 1 == 1 {
            lemma_mods_string_acc(bits >> 1, i + 1, acc + "-"@ + n);
            let rest = mods_string(bits >> 1, i + 1, Seq::empty());
            assert(Seq::<char>::empty() + n =~= n);
            assert(acc + "-"@ + n + after_dash(rest) =~= acc + after_dash(n + after_dash(rest)));
        } else {
            lemma_mods_string_acc(bits >> 1, i + 1, acc);
        }
    }
}

/// The names of the modifier bits of `m` from bit `i` on give back those bits.
proof fn lemma_names_bits(m: u8, i: u8, bm: u8)
    requires
        i <= 8,
    ensures
        names_bits(mods_string(m >> i, i as int, Seq::empty()), bm) == Some((bm | (m & mask_from(i))) as u8),
    decreases 8 - i,
{
    reveal_strlit("-");
    if i >= 8 {
        lemma_mask_bits(m, 0, bm);
        assert(m >> i == 0);
    } else {
        lemma_mask_bits(m, i, bm);
        let bits = m >> i;
        if bits == 0 {
        } else {
            lemma_names_bits(m, (i + 1) as u8, bm);
            lemma_modifier_name(i as int);
            let n = modifier_name(i as int);
            let b = (1u8 << i) as u8;
            let rest = mods_string(bits >> 1, i + 1, Seq::empty());
            assert(bits >> 1 == m >> ((i + 1) as u8));
            if bits & 1 == 1 {
                lemma_names_bits(m, (i + 1) as u8, (bm | b) as u8);
                assert(Seq::<char>::empty() + n =~= n);
                lemma_mods_string_acc(bits >> 1, i + 1, n);
                let s = n + after_dash(rest);
                assert(mods_string(bits, i as int, Seq::empty()) == s);
                if rest.len() == 0 {
                    assert(s =~= n);
                    assert(s.subrange(0, n.len() as int) =~= n);
                    lemma_bit_map_skip(s, n, 0, bm);
                    assert(bit_map_from(s, n.len() as int, 0, bm) == Some((bm | b) as u8));
                    assert(mask_from((i + 1) as u8) == ((0xffu8 << i) as u8) & !((1u8 << i) as u8));
                } else {
                    let t = n + "-"@;
                    assert(s =~= t + rest);
                    assert(s.subrange(0, n.len() as int) =~= n);
                    lemma_bit_map_skip(s, n, 0, bm);
                    assert(s[n.len() as int] == '-');
                    assert(s.subrange(0, n.len() as int) == n);
                    lemma_bit_map_shift(t, rest, 0, 0, (bm | b) as u8);
                    assert(t.len() == n.len() + 1);
                    assert(bit_map_from(s, n.len() as int, 0, bm) == bit_map_from(s, n.len() + 1int, n.len() + 1int, (bm | b) as u8));
                    assert(mask_from((i + 1) as u8) == ((0xffu8 << i) as u8) & !((1u8 << i) as u8));
                }
            } else {
                assert(mods_string(bits, i as int, Seq::empty()) == rest);
                assert(mask_from((i + 1) as u8) == ((0xffu8 << i) as u8) & !((1u8 << i) as u8));
            }
        }
    }
}

/// Writing modifier bits as names and reading the names back gives the bits:
/// `modifiers_to_bit_map(modifiers_to_string(m))` is `Some(m)` for every `m`.
pub proof fn law_modifier_names_round_trip(m: u8)
    ensures
        spec_modifiers_to_bit_map(mods_string(m, 0, Seq::empty())) == Some(m),
{
    lemma_names_bits(m, 0, 0);
    lemma_mask_bits(m, 0, 0);
    assert(0u8 | (m & mask_from(0)) == m);
}

} // verus!
