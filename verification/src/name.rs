//! A person's name, and its reading from a single delimited text field.

use vstd::prelude::*;
use vstd::std_specs::iter::IteratorSpec;
use vstd::string::{StrSliceExecFns, group_string_axioms};

verus! {

/// A person's name in its five parts.
#[derive(Debug, Clone, PartialEq)]
pub struct Name {
    /// Last name: the family name.
    pub last: String,
    /// First name: the given name.
    pub first: String,
    /// Middle name or initial.
    pub middle: String,
    /// Prefix or title, such as "Dr.".
    pub prefix: String,
    /// Suffix, such as "Jr.".
    pub suffix: String,
}

/// The characters that part one component of a name field from the next: the
/// caret and the backslash.
pub open spec fn is_separator(c: char) -> bool {
    c == '^' || c == '\\'
}

/// Where the first separator stands in `field`, or the length of `field` if
/// it holds none.
pub open spec fn first_separator(field: Seq<char>) -> int
    decreases field.len(),
{
    if field.len() == 0 || is_separator(field[0]) {
        0
    } else {
        1 + first_separator(field.drop_first())
    }
}

/// Component number `k` of `field`, counting from zero: what stands between
/// separator number `k` and the one after it, the start and the end of the
/// field counting as separators. A field with fewer than `k` separators has
/// an empty component `k`.
pub open spec fn component(field: Seq<char>, k: nat) -> Seq<char>
    decreases k,
{
    let end = first_separator(field);
    if k == 0 {
        field.take(end)
    } else if end >= field.len() {
        Seq::empty()
    } else {
        component(field.skip(end + 1), (k - 1) as nat)
    }
}

/// What `str::trim` returns for a string of the characters `s`.
pub uninterp spec fn trimmed(s: Seq<char>) -> Seq<char>;

/// `str::trim` of the standard library: the slice of `s` that is left when the
/// white space at its start and at its end is taken away, white space being
/// what Unicode defines as such. The contract gives that slice the name
/// [`trimmed`] and claims nothing more of it.
pub assume_specification[ str::trim ](s: &str) -> (r: &str)
    ensures
        r@ == trimmed(s@),
;

/// The first separator stands where `first_separator` says, and nowhere
/// before.
proof fn lemma_first_separator(field: Seq<char>)
    ensures
        0 <= first_separator(field) <= field.len(),
        forall|j: int| 0 <= j < first_separator(field) ==> !is_separator(#[trigger] field[j]),
        first_separator(field) < field.len() ==> is_separator(field[first_separator(field)]),
    decreases field.len(),
{
    if field.len() != 0 && !is_separator(field[0]) {
        let rest = field.drop_first();
        lemma_first_separator(rest);
        assert forall|j: int| 0 <= j < first_separator(field) implies !is_separator(
            #[trigger] field[j],
        ) by {
            if j > 0 {
                assert(field[j] == rest[j - 1]);
            }
        }
    }
}

/// A position that holds a separator, or the end of the field, with no
/// separator before it, is the position of the first separator.
proof fn lemma_first_separator_at(field: Seq<char>, at: int)
    requires
        0 <= at <= field.len(),
        forall|j: int| 0 <= j < at ==> !is_separator(#[trigger] field[j]),
        at < field.len() ==> is_separator(field[at]),
    ensures
        first_separator(field) == at,
{
    lemma_first_separator(field);
}

/// A component holds no separator, and the components of a field without
/// separators are the field itself and nothing after it.
pub proof fn lemma_component(field: Seq<char>, k: nat)
    ensures
        forall|j: int| 0 <= j < component(field, k).len() ==> !is_separator(#[trigger] component(field, k)[j]),
        first_separator(field) == field.len() ==> component(field, k) == if k == 0 {
            field
        } else {
            Seq::empty()
        },
    decreases k,
{
    lemma_first_separator(field);
    let end = first_separator(field);
    if k == 0 {
        assert forall|j: int| 0 <= j < field.take(end).len() implies !is_separator(
            #[trigger] field.take(end)[j],
        ) by {
            assert(field.take(end)[j] == field[j]);
        }
        if end == field.len() {
            assert(field.take(end) =~= field);
        }
    } else if end < field.len() {
        lemma_component(field.skip(end + 1), (k - 1) as nat);
        assert(component(field, k) == component(field.skip(end + 1), (k - 1) as nat));
    } else {
        assert(component(field, k) == Seq::<char>::empty());
    }
}

impl Name {
    /// The five parts are the first five components of `field`.
    pub open spec fn reads(&self, field: Seq<char>) -> bool {
        &&& self.last@ == component(field, 0)
        &&& self.first@ == component(field, 1)
        &&& self.middle@ == component(field, 2)
        &&& self.prefix@ == component(field, 3)
        &&& self.suffix@ == component(field, 4)
    }

    /// Reads a name from a field in which carets or backslashes part the
    /// last, first and middle name, the prefix and the suffix, in this order.
    /// White space at the start and at the end of the field is not part of
    /// it. Components that the field lacks are empty, and components after
    /// the fifth are dropped.
    pub fn from_dicom(s: &str) -> (r: Name)
        ensures
            r.reads(trimmed(s@)),
    {
        Name::from_components(s.trim())
    }

    /// Reads a name from a field as [`Name::from_dicom`] does, but takes the
    /// field as it stands, white space and all.
    pub fn from_components(field: &str) -> (r: Name)
        ensures
            r.reads(field@),
    {
        broadcast use group_string_axioms;

        let n = field.unicode_len();
        let mut parts: Vec<String> = Vec::new();
        let mut chars = field.chars();
        let mut start: usize = 0;
        let mut i: usize = 0;
        assert(field@.skip(0) =~= field@);
        while i < n && parts.len() < 5
            invariant
                n == field@.len(),
                start <= i <= n,
                parts.len() <= 5,
                chars.obeys_prophetic_iter_laws(),
                chars.remaining() == field@.skip(i as int),
                forall|j: int| start <= j < i ==> !is_separator(#[trigger] field@[j]),
                forall|k: int| 0 <= k < parts.len() ==> (#[trigger] parts[k])@ == component(field@, k as nat),
                forall|m: nat| component(field@, parts.len() as nat + m) == #[trigger] component(field@.skip(start as int), m),
            decreases n - i,
        {
            let next = chars.next();
            let c = next.unwrap();
            if c == '^' || c == '\\' {
                let part = field.substring_char(start, i).to_owned();
                proof {
                    let rest = field@.skip(start as int);
                    lemma_first_separator_at(rest, i - start);
                    assert(rest.skip(i - start + 1) =~= field@.skip(i + 1));
                    assert(component(rest, 0) == part@);
                    assert forall|m: nat| component(field@, parts.len() as nat + 1 + m) == #[trigger] component(field@.skip(i + 1), m) by {
                        assert(component(rest, m + 1) == component(field@.skip(i + 1), m));
                    }
                }
                parts.push(part);
                start = i + 1;
            }
            i += 1;
        }
        if parts.len() < 5 {
            let part = field.substring_char(start, n).to_owned();
            proof {
                let rest = field@.skip(start as int);
                lemma_first_separator_at(rest, n - start);
                assert(component(rest, 0) == part@);
                assert forall|k: nat| k > parts.len() implies #[trigger] component(field@, k) == Seq::<char>::empty() by {
                    let m = (k - parts.len()) as nat;
                    assert(component(field@, parts.len() as nat + m) == component(rest, m));
                }
            }
            let ghost found = parts.len();
            parts.push(part);
            while parts.len() < 5
                invariant
                    found < parts.len() <= 5,
                    forall|k: nat| k > found ==> #[trigger] component(field@, k) == Seq::<char>::empty(),
                    forall|k: int| 0 <= k < parts.len() ==> (#[trigger] parts[k])@ == component(field@, k as nat),
                decreases 5 - parts.len(),
            {
                parts.push(String::new());
            }
        }
        let suffix = parts.pop().unwrap();
        let prefix = parts.pop().unwrap();
        let middle = parts.pop().unwrap();
        let first = parts.pop().unwrap();
        let last = parts.pop().unwrap();
        Name { last, first, middle, prefix, suffix }
    }
}

impl Default for Name {
    /// The name whose five parts are empty.
    fn default() -> (r: Self)
        ensures
            r.last@.len() == 0,
            r.first@.len() == 0,
            r.middle@.len() == 0,
            r.prefix@.len() == 0,
            r.suffix@.len() == 0,
    {
        Name {
            last: String::new(),
            first: String::new(),
            middle: String::new(),
            prefix: String::new(),
            suffix: String::new(),
        }
    }
}

} // verus!
