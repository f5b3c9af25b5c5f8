//! Repository names.

use vstd::prelude::*;

use crate::error::Error;
use crate::text::{chars_of, is_lower_alnum, lower_alnum};

verus! {

/// `[._-]`, between the alphanumeric runs of a path component.
pub open spec fn is_component_separator(c: char) -> bool {
    c == '.' || c == '_' || c == '-'
}

pub open spec fn is_name_char(c: char) -> bool {
    is_lower_alnum(c) || is_component_separator(c) || c == '/'
}

/// The repository-name grammar
/// `[a-z0-9]+((\.|_|__|-+)[a-z0-9]+)*(\/[a-z0-9]+((\.|_|__|-+)[a-z0-9]+)*)*`,
/// stated on neighbouring characters: every `/` and every separator run sits
/// between alphanumerics, and a separator run is `.`, `_`, `__` or dashes.
pub open spec fn valid_name(s: Seq<char>) -> bool {
    &&& s.len() > 0
    &&& is_lower_alnum(s[0])
    &&& is_lower_alnum(s.last())
    &&& forall|i: int| 0 <= i < s.len() ==> is_name_char(#[trigger] s[i])
    &&& forall|i: int| 0 <= i < s.len() - 1 && #[trigger] s[i] == '/' ==> is_lower_alnum(s[i + 1])
    &&& forall|i: int| 0 < i < s.len() && #[trigger] s[i] == '/' ==> is_lower_alnum(s[i - 1])
    &&& forall|i: int|
        0 <= i < s.len() - 1 && is_component_separator(#[trigger] s[i]) && is_component_separator(
            s[i + 1],
        ) ==> s[i] == s[i + 1] && s[i] != '.'
    &&& forall|i: int|
        0 <= i < s.len() - 2 && #[trigger] s[i] == '_' ==> !(s[i + 1] == '_' && s[i + 2] == '_')
}

/// Namespace of a repository, such as `termoshtt/ocipkg`.
#[derive(Debug, Clone, PartialEq, Eq, Hash)]
pub struct Name(String);

impl View for Name {
    type V = Seq<char>;

    closed spec fn view(&self) -> Seq<char> {
        self.0@
    }
}

fn check_name(s: &[char]) -> (r: bool)
    ensures
        r == valid_name(s@),
{
    let n = s.len();
    if n == 0 {
        return false;
    }
    if !lower_alnum(s[0]) || !lower_alnum(s[n - 1]) {
        return false;
    }
    let mut i: usize = 0;
    while i < n
        invariant
            n == s@.len(),
            i <= n,
            n > 0,
            is_lower_alnum(s@[0]),
            is_lower_alnum(s@[n - 1]),
            forall|j: int| 0 <= j < i ==> is_name_char(#[trigger] s@[j]),
            forall|j: int| 0 <= j < i && j < n - 1 && #[trigger] s@[j] == '/' ==> is_lower_alnum(s@[j + 1]),
            forall|j: int| 0 < j < i && #[trigger] s@[j] == '/' ==> is_lower_alnum(s@[j - 1]),
            forall|j: int|
                0 <= j < i && j < n - 1 && is_component_separator(#[trigger] s@[j])
                    && is_component_separator(s@[j + 1]) ==> s@[j] == s@[j + 1] && s@[j] != '.',
            forall|j: int|
                0 <= j < i && j < n - 2 && #[trigger] s@[j] == '_' ==> !(s@[j + 1] == '_' && s@[j + 2] == '_'),
        decreases n - i,
    {
        let c = s[i];
        let sep = c == '.' || c == '_' || c == '-';
        if !(lower_alnum(c) || sep || c == '/') {
            return false;
        }
        if c == '/' {
            if i + 1 < n && !lower_alnum(s[i + 1]) {
                return false;
            }
            if i > 0 && !lower_alnum(s[i - 1]) {
                return false;
            }
        }
        if sep && i + 1 < n {
            let d = s[i + 1];
            if (d == '.' || d == '_' || d == '-') && (d != c || c == '.') {
                return false;
            }
        }
        if c == '_' && i + 2 < n && s[i + 1] == '_' && s[i + 2] == '_' {
            return false;
        }
        i = i + 1;
    }
    true
}

impl Name {
    pub open spec fn wf(&self) -> bool {
        valid_name(self@)
    }

    pub fn as_str(&self) -> (r: &str)
        ensures
            r@ == self@,
    {
        self.0.as_str()
    }

    /// Checks `name` against the repository-name grammar.
    pub fn new(name: &str) -> (r: Result<Name, Error>)
        ensures
            match r {
                Ok(n) => valid_name(name@) && n@ == name@ && n.wf(),
                Err(e) => !valid_name(name@) && e.is_invalid_name(name@),
            },
    {
        let cs = chars_of(name);
        if check_name(cs.as_slice()) {
            Ok(Name(name.to_owned()))
        } else {
            Err(Error::InvalidName(name.to_owned()))
        }
    }

    /// A copy with the same text.
    pub fn duplicate(&self) -> (r: Name)
        ensures
            r@ == self@,
    {
        Name(self.0.clone())
    }
}

} // verus!
