use vstd::prelude::*;

verus! {

/// Why a name was refused.
#[derive(Debug, Clone, Copy, PartialEq, Eq)]
pub enum NameError {
    /// The name is empty.
    Empty,
    /// The name holds `/` or `\`.
    PathSeparator,
    /// The name holds a NUL character.
    NullCharacter,
}

impl NameError {
    /// The message shown to the user.
    pub fn message(&self) -> (r: &'static str)
        ensures
            r@ == match *self {
                NameError::Empty => "Name cannot be empty"@,
                NameError::PathSeparator => "Name cannot contain path separators"@,
                NameError::NullCharacter => "Name cannot contain null characters"@,
            },
    {
        match self {
            NameError::Empty => "Name cannot be empty",
            NameError::PathSeparator => "Name cannot contain path separators",
            NameError::NullCharacter => "Name cannot contain null characters",
        }
    }
}

/// Whether `c` occurs in `s`.
pub open spec fn has_char(s: Seq<char>, c: char) -> bool {
    exists|i: int| 0 <= i < s.len() && s[i] == c
}

/// The verdict on a name: the first rule it breaks, in the order empty,
/// path separator, NUL.
pub open spec fn name_verdict(name: Seq<char>) -> Result<(), NameError> {
    if name.len() == 0 {
        Err(NameError::Empty)
    } else if has_char(name, '/') || has_char(name, '\\') {
        Err(NameError::PathSeparator)
    } else if has_char(name, '\0') {
        Err(NameError::NullCharacter)
    } else {
        Ok(())
    }
}

/// Whether `c` occurs in `s`.
pub fn contains_char(s: &str, c: char) -> (r: bool)
    ensures
        r == has_char(s@, c),
{
    let n = s.unicode_len();
    let mut i: usize = 0;
    while i < n
        invariant
            n == s@.len(),
            i <= n,
            forall|j: int| 0 <= j < i ==> s@[j] != c,
        decreases n - i,
    {
        if s.get_char(i) == c {
            return true;
        }
        i = i + 1;
    }
    false
}

/// Checks that a name can stand as a stored item's name.
pub fn validate_name(name: &str) -> (r: Result<(), NameError>)
    ensures
        r == name_verdict(name@),
{
    if name.unicode_len() == 0 {
        return Err(NameError::Empty);
    }
    if contains_char(name, '/') || contains_char(name, '\\') {
        return Err(NameError::PathSeparator);
    }
    if contains_char(name, '\0') {
        return Err(NameError::NullCharacter);
    }
    Ok(())
}

/// Whether an editor command is free of the shell metacharacters `;`, `&`,
/// `|` and a backquote, and so may be launched.
pub fn is_safe_editor(editor: &str) -> (r: bool)
    ensures
        r == !(has_char(editor@, ';') || has_char(editor@, '&') || has_char(editor@, '|')
            || has_char(editor@, '`')),
{
    !(contains_char(editor, ';') || contains_char(editor, '&') || contains_char(editor, '|')
        || contains_char(editor, '`'))
}

} // verus!
