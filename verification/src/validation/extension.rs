//! What an archive may be called: its extension must be an allowed one.

use super::error::ValidationError;
use vstd::prelude::*;
use vstd::string::StrSliceExecFns;

verus! {

/// The lower-case form of a text, as `str::to_lowercase` defines it.
pub uninterp spec fn lowercase_of(text: Seq<char>) -> Seq<char>;

/// Calls `str::to_lowercase`. The contract gives the result its name and
/// claims nothing else of it.
#[verifier::external_body]
pub(crate) fn lowercase(text: &str) -> (lower: String)
    ensures
        lower@ == lowercase_of(text@),
{
    text.to_lowercase()
}

/// Index of the last dot in `name`, or -1 if it has none.
pub open spec fn last_dot(name: Seq<char>) -> int
    decreases name.len(),
{
    if name.len() == 0 {
        -1
    } else if name.last() == '.' {
        name.len() - 1
    } else {
        last_dot(name.drop_last())
    }
}

/// The extension of a file name: what follows its last dot. A name without a
/// dot has the empty extension, and so has a name whose only dot comes first.
pub open spec fn extension_of(name: Seq<char>) -> Seq<char> {
    let dot = last_dot(name);
    if dot <= 0 {
        Seq::empty()
    } else {
        name.skip(dot + 1)
    }
}

/// Whether `lowered` is one of `list`.
pub open spec fn listed(list: Seq<Seq<char>>, lowered: Seq<char>) -> bool {
    exists|i: int| 0 <= i < list.len() && #[trigger] list[i] == lowered
}

/// `list` with each text in lower case.
pub open spec fn lowercase_all(list: Seq<Seq<char>>) -> Seq<Seq<char>> {
    list.map_values(|text: Seq<char>| lowercase_of(text))
}

/// Whether a file called `name` may be an archive when `allowed` are the
/// allowed extensions: its extension is one of them, whatever the case of
/// either.
pub open spec fn extension_allowed(allowed: Seq<Seq<char>>, name: Seq<char>) -> bool {
    listed(lowercase_all(allowed), lowercase_of(extension_of(name)))
}

/// Holds the allowed extensions, and checks names against them.
pub struct ExtensionValidator {
    allowed: Vec<String>,
}

impl View for ExtensionValidator {
    type V = Seq<Seq<char>>;

    /// The allowed extensions.
    closed spec fn view(&self) -> Seq<Seq<char>> {
        self.allowed.deep_view()
    }
}

impl Clone for ExtensionValidator {
    fn clone(&self) -> (copy: Self)
        ensures
            copy@ == self@,
    {
        let mut allowed: Vec<String> = Vec::new();
        let mut i: usize = 0;
        while i < self.allowed.len()
            invariant
                i <= self.allowed@.len(),
                allowed@.len() == i,
                allowed.deep_view() == self.allowed.deep_view().take(i as int),
            decreases self.allowed@.len() - i,
        {
            let text: String = self.allowed[i].clone();
            allowed.push(text);
            assert(allowed.deep_view() =~= self.allowed.deep_view().take(i + 1));
            i = i + 1;
        }
        assert(self.allowed.deep_view().take(i as int) =~= self.allowed.deep_view());
        ExtensionValidator { allowed }
    }
}

/// The extension of the file name `name`.
fn extension_text(name: &str) -> (ext: &str)
    ensures
        ext@ == extension_of(name@),
{
    let len: usize = name.unicode_len();
    let mut end: usize = len;
    assert(name@.take(end as int) =~= name@);
    while end > 0 && name.get_char(end - 1) != '.'
        invariant
            end <= len == name@.len(),
            last_dot(name@.take(end as int)) == last_dot(name@),
        decreases end,
    {
        assert(name@.take(end as int).drop_last() =~= name@.take(end - 1));
        end = end - 1;
    }
    assert(last_dot(name@) == end - 1);
    if end <= 1 {
        name.substring_char(len, len)
    } else {
        name.substring_char(end, len)
    }
}

impl ExtensionValidator {
    /// A validator that allows the extensions `allowed`, written without the dot.
    pub fn new(allowed: Vec<String>) -> (r: Self)
        ensures
            r@ == allowed.deep_view(),
    {
        Self { allowed }
    }

    /// Checks the extension of a file name against the allowed ones, both in
    /// lower case. `file_name` is the last component of the archive's path,
    /// or empty where the path has none. No file is opened.
    pub fn validate(&self, file_name: &str) -> (r: Result<(), ValidationError>)
        ensures
            r is Ok <==> extension_allowed(self@, file_name@),
            r matches Err(e) ==> (e matches ValidationError::InvalidExtension(ext) && ext@
                == lowercase_of(extension_of(file_name@))),
    {
        let lowered: String = lowercase(extension_text(file_name));
        let mut allowed: Vec<String> = Vec::new();
        let mut i: usize = 0;
        while i < self.allowed.len()
            invariant
                i <= self.allowed@.len(),
                allowed@.len() == i,
                allowed.deep_view() == lowercase_all(self@).take(i as int),
            decreases self.allowed@.len() - i,
        {
            let lower: String = lowercase(self.allowed[i].as_str());
            allowed.push(lower);
            assert(allowed.deep_view() =~= lowercase_all(self@).take(i + 1));
            i = i + 1;
        }
        assert(lowercase_all(self@).take(i as int) =~= lowercase_all(self@));
        Self::check_lowered(lowered, &allowed)
    }

    /// The verdict once everything is in lower case: `extension` must be one
    /// of `allowed`.
    pub fn check_lowered(extension: String, allowed: &Vec<String>) -> (r: Result<
        (),
        ValidationError,
    >)
        ensures
            r is Ok <==> listed(allowed.deep_view(), extension@),
            r matches Err(e) ==> (e matches ValidationError::InvalidExtension(ext) && ext@
                == extension@),
    {
        let mut i: usize = 0;
        while i < allowed.len()
            invariant
                i <= allowed@.len(),
                forall|j: int| 0 <= j < i ==> #[trigger] allowed.deep_view()[j] != extension@,
            decreases allowed@.len() - i,
        {
            if allowed[i] == extension {
                assert(allowed.deep_view()[i as int] == extension@);
                return Ok(());
            }
            i = i + 1;
        }
        Err(ValidationError::InvalidExtension(extension))
    }
}

} // verus!
