//! The settings of the terminal application and the rules they must follow.

use vstd::prelude::*;
use vstd::string::StrSliceExecFns;

verus! {

/// A rule a setting breaks.
#[derive(Clone, Copy, Debug, PartialEq, Eq, Structural)]
pub enum ConfigError {
    NoFontFamilies,
    EmptyFontFamily,
    ZeroWindowWidth,
    ZeroWindowHeight,
    EmptyShell,
}

/// What the rule `e` says, for the user.
pub open spec fn message_text(e: ConfigError) -> Seq<char> {
    match e {
        ConfigError::NoFontFamilies => "font.families must include at least one family"@,
        ConfigError::EmptyFontFamily => "font.families cannot contain empty entries"@,
        ConfigError::ZeroWindowWidth => "window.width must be greater than zero"@,
        ConfigError::ZeroWindowHeight => "window.height must be greater than zero"@,
        ConfigError::EmptyShell => "terminal.shell cannot be empty"@,
    }
}

impl ConfigError {
    /// What the rule says, for the user, as `message_text` gives it.
    pub fn message(&self) -> (r: &'static str)
        ensures
            r@ == message_text(*self),
    {
        match self {
            ConfigError::NoFontFamilies => "font.families must include at least one family",
            ConfigError::EmptyFontFamily => "font.families cannot contain empty entries",
            ConfigError::ZeroWindowWidth => "window.width must be greater than zero",
            ConfigError::ZeroWindowHeight => "window.height must be greater than zero",
            ConfigError::EmptyShell => "terminal.shell cannot be empty",
        }
    }
}

/// Whether `char::is_whitespace` holds of `c`: whether `c` has the Unicode property
/// White_Space.
pub uninterp spec fn white_space(c: char) -> bool;

/// Whether `c` is whitespace (`char::is_whitespace`); the ASCII space, tab, line feed, vertical
/// tab, form feed and carriage return are, and ASCII letters and digits are not.
#[verifier::external_body]
pub(crate) fn is_whitespace(c: char) -> (r: bool)
    ensures
        r == white_space(c),
        (c == ' ' || c == '\t' || c == '\n' || c == '\x0b' || c == '\x0c' || c == '\r') ==> r,
        ('a' <= c <= 'z' || 'A' <= c <= 'Z' || '0' <= c <= '9') ==> !r,
{
    c.is_whitespace()
}

/// Whether `s` is empty once trimmed: whether every character of it is whitespace.
pub open spec fn blank(s: Seq<char>) -> bool {
    forall|i: int| 0 <= i < s.len() ==> white_space(#[trigger] s[i])
}

/// Whether `s` is empty once trimmed.
pub fn is_blank(s: &String) -> (r: bool)
    ensures
        r == blank(s@),
{
    let text = s.as_str();
    let n = text.unicode_len();
    let mut i: usize = 0;
    while i < n
        invariant
            n == text@.len(),
            text@ == s@,
            i <= n,
            forall|j: int| 0 <= j < i ==> white_space(#[trigger] s@[j]),
        decreases n - i,
    {
        let c = text.get_char(i);
        if !is_whitespace(c) {
            return false;
        }
        i = i + 1;
    }
    true
}

/// Checks the font family list: at least one family, none of them blank.
pub fn validate_font_families(families: &Vec<String>) -> (r: Result<(), ConfigError>)
    ensures
        families@.len() == 0 ==> r == Err::<(), ConfigError>(ConfigError::NoFontFamilies),
        families@.len() > 0 && (exists|i: int| 0 <= i < families@.len() && blank(#[trigger] families@[i]@)) ==> r
            == Err::<(), ConfigError>(ConfigError::EmptyFontFamily),
        families@.len() > 0 && (forall|i: int| 0 <= i < families@.len() ==> !blank(#[trigger] families@[i]@)) ==> r
            == Ok::<(), ConfigError>(()),
{
    if families.len() == 0 {
        return Err(ConfigError::NoFontFamilies);
    }
    let mut i: usize = 0;
    while i < families.len()
        invariant
            i <= families@.len(),
            forall|j: int| 0 <= j < i ==> !blank(#[trigger] families@[j]@),
        decreases families@.len() - i,
    {
        if is_blank(&families[i]) {
            return Err(ConfigError::EmptyFontFamily);
        }
        i = i + 1;
    }
    Ok(())
}

/// The initial size of the window, in pixels.
#[derive(Clone, Debug, PartialEq, Eq, Structural)]
pub struct WindowConfig {
    pub width: u32,
    pub height: u32,
}

impl Default for WindowConfig {
    fn default() -> (r: Self)
        ensures
            r == (WindowConfig { width: 1180, height: 760 }),
    {
        WindowConfig { width: 1180, height: 760 }
    }
}

impl WindowConfig {
    /// Checks that neither side is zero, the width first.
    pub fn validate(&self) -> (r: Result<(), ConfigError>)
        ensures
            r == if self.width == 0 {
                Err::<(), ConfigError>(ConfigError::ZeroWindowWidth)
            } else if self.height == 0 {
                Err::<(), ConfigError>(ConfigError::ZeroWindowHeight)
            } else {
                Ok::<(), ConfigError>(())
            },
    {
        if self.width == 0 {
            return Err(ConfigError::ZeroWindowWidth);
        }
        if self.height == 0 {
            return Err(ConfigError::ZeroWindowHeight);
        }
        Ok(())
    }
}

/// The scrollback kept and the shell started.
#[derive(Clone, Debug, PartialEq, Eq)]
pub struct TerminalConfig {
    pub scrollback: usize,
    pub shell: Option<String>,
}

impl Default for TerminalConfig {
    fn default() -> (r: Self)
        ensures
            r.scrollback == 5000,
            r.shell is None,
    {
        TerminalConfig { scrollback: 5000, shell: None }
    }
}

impl TerminalConfig {
    /// Checks that a shell, where one is given, is not blank.
    pub fn validate(&self) -> (r: Result<(), ConfigError>)
        ensures
            r == match self.shell {
                Some(shell) => if blank(shell@) {
                    Err::<(), ConfigError>(ConfigError::EmptyShell)
                } else {
                    Ok::<(), ConfigError>(())
                },
                None => Ok::<(), ConfigError>(()),
            },
    {
        match &self.shell {
            Some(shell) => {
                if is_blank(shell) {
                    Err(ConfigError::EmptyShell)
                } else {
                    Ok(())
                }
            },
            None => Ok(()),
        }
    }
}

} // verus!
