//! Names arrive from the outside world with decoration the library
//! must see through: surrounding whitespace, and the
//! "client: project" convention used for desktop names.

use vstd::prelude::*;

verus! {

/// What `str::trim` leaves of a string: the characters with leading
/// and trailing whitespace removed. The result is a function of the
/// characters alone.
pub uninterp spec fn trim_of(s: Seq<char>) -> Seq<char>;

/// Relies on `str::trim`: returns the string without leading and
/// trailing whitespace. What trim returns is a subslice of its
/// input, so the result is never longer than the input.
#[verifier::external_body]
pub(crate) fn trimmed(s: &str) -> (r: String)
    ensures
        r@ == trim_of(s@),
        r@.len() <= s@.len(),
{
    s.trim().to_owned()
}

/// Whether the character sequence contains a colon.
pub open spec fn contains_colon(s: Seq<char>) -> bool {
    exists|i: int| 0 <= i < s.len() && s[i] == ':'
}

/// Index of the first colon in the sequence (meaningful only when one
/// is present).
pub open spec fn first_colon_index(s: Seq<char>) -> int
    decreases s.len(),
{
    if s.len() == 0 {
        0
    } else if s[0] == ':' {
        0
    } else {
        1 + first_colon_index(s.subrange(1, s.len() as int))
    }
}

proof fn lemma_first_colon_index(s: Seq<char>, i: int)
    requires
        0 <= i < s.len(),
        s[i] == ':',
        forall|j: int| 0 <= j < i ==> s[j] != ':',
    ensures
        first_colon_index(s) == i,
    decreases i,
{
    if s[0] == ':' {
        assert(i == 0);
    } else {
        let t = s.subrange(1, s.len() as int);
        assert(t[i - 1] == ':');
        assert(forall|j: int| 0 <= j < i - 1 ==> t[j] == s[j + 1] && s[j + 1] != ':');
        lemma_first_colon_index(t, i - 1);
    }
}

/// Splits a desktop name into client and project.
///
/// The name is expected in the form "client: project"; the parts on
/// either side of the first colon are trimmed. When no colon is
/// present the whole (trimmed) name is the client and there is no
/// project.
pub fn parse_desktop_name(desktop_name: &str) -> (r: (Option<String>, Option<String>))
    ensures
        ({
            let s = desktop_name@;
            if contains_colon(s) {
                let k = first_colon_index(s);
                &&& r.0 matches Some(c) && c@ == trim_of(s.subrange(0, k))
                &&& r.1 matches Some(p) && p@ == trim_of(s.subrange(k + 1, s.len() as int))
            } else {
                &&& r.0 matches Some(c) && c@ == trim_of(s)
                &&& r.1 is None
            }
        }),
{
    let len = desktop_name.unicode_len();
    let mut i: usize = 0;
    while i < len
        invariant
            0 <= i <= len,
            len == desktop_name@.len(),
            forall|j: int| 0 <= j < i ==> desktop_name@[j] != ':',
        decreases len - i,
    {
        if desktop_name.get_char(i) == ':' {
            proof {
                lemma_first_colon_index(desktop_name@, i as int);
            }
            let before = desktop_name.substring_char(0, i);
            let after = desktop_name.substring_char(i + 1, len);
            return (Some(trimmed(before)), Some(trimmed(after)));
        }
        i += 1;
    }
    (Some(trimmed(desktop_name)), None)
}

/// Whether the names shown in an editor agree with the names of the
/// active session: each editor field, trimmed, must equal the trimmed
/// session name, and a missing session name matches only an empty
/// editor field.
pub fn compare_client_and_project_names(
    gui_client: &str,
    gui_project: &str,
    client: &Option<String>,
    project: &Option<String>,
) -> (r: bool)
    ensures
        r == ({
            let client_match = match client {
                Some(c) => trim_of(gui_client@) == trim_of(c@),
                None => gui_client@.len() == 0,
            };
            let project_match = match project {
                Some(p) => trim_of(gui_project@) == trim_of(p@),
                None => gui_project@.len() == 0,
            };
            client_match && project_match
        }),
{
    let client_match = match client {
        Some(c) => trimmed(gui_client) == trimmed(c.as_str()),
        None => gui_client.is_empty(),
    };
    let project_match = match project {
        Some(p) => trimmed(gui_project) == trimmed(p.as_str()),
        None => gui_project.is_empty(),
    };
    client_match && project_match
}

} // verus!
