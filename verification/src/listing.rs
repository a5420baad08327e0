//! The package set of one environment, and how the raw text of a listing
//! is read into it.

use crate::package::{parse_record, PackageInfo, PackageView};
use crate::text::{split_on, split_text, texts};
use vstd::prelude::*;

verus! {

/// The views of a sequence of records, element by element.
pub open spec fn records(v: Seq<PackageInfo>) -> Seq<PackageView> {
    v.map_values(|p: PackageInfo| p@)
}

/// Some member of `s` is the same package as `p`.
pub open spec fn has_package(s: Seq<PackageView>, p: PackageView) -> bool {
    exists|i: int| 0 <= i < s.len() && (#[trigger] s[i]).same_package(p)
}

/// No two members of `s` are the same package.
pub open spec fn distinct_packages(s: Seq<PackageView>) -> bool {
    forall|i: int, j: int|
        0 <= i < j < s.len() ==> !(#[trigger] s[i]).same_package(#[trigger] s[j])
}

/// `s` after `p` was offered to it: a package already present is kept as
/// it is, a new one goes to the end.
pub open spec fn with_record(s: Seq<PackageView>, p: PackageView) -> Seq<PackageView> {
    if has_package(s, p) {
        s
    } else {
        s.push(p)
    }
}

/// A set of package records in which no package occurs twice. Its view is
/// the sequence of its records in the order in which they arrived.
pub struct PackageSet {
    entries: Vec<PackageInfo>,
}

impl View for PackageSet {
    type V = Seq<PackageView>;

    closed spec fn view(&self) -> Seq<PackageView> {
        records(self.entries@)
    }
}

impl PackageSet {
    #[verifier::type_invariant]
    spec fn well_formed(self) -> bool {
        distinct_packages(records(self.entries@))
    }

    /// The empty set.
    pub fn new() -> (r: PackageSet)
        ensures
            r@ == Seq::<PackageView>::empty(),
    {
        let entries: Vec<PackageInfo> = Vec::new();
        assert(records(entries@) =~= Seq::<PackageView>::empty());
        PackageSet { entries }
    }

    /// The number of packages in the set.
    pub fn len(&self) -> (n: usize)
        ensures
            n == self@.len(),
    {
        self.entries.len()
    }

    /// Whether the set is empty.
    pub fn is_empty(&self) -> (r: bool)
        ensures
            r == (self@.len() == 0),
    {
        self.entries.len() == 0
    }

    /// The record at position `i`, in order of arrival.
    pub fn get(&self, i: usize) -> (r: Option<&PackageInfo>)
        ensures
            i < self@.len() ==> r is Some && r->Some_0@ == self@[i as int],
            i >= self@.len() ==> r is None,
    {
        if i < self.entries.len() {
            Some(&self.entries[i])
        } else {
            None
        }
    }

    /// Whether the set holds the package that `p` describes.
    pub fn contains(&self, p: &PackageInfo) -> (r: bool)
        ensures
            r == has_package(self@, p@),
    {
        let mut i: usize = 0;
        while i < self.entries.len()
            invariant
                i <= self.entries.len(),
                forall|j: int| 0 <= j < i ==> !(#[trigger] self@[j]).same_package(p@),
            decreases self.entries.len() - i,
        {
            if self.entries[i] == *p {
                assert(self@[i as int].same_package(p@));
                return true;
            }
            i = i + 1;
        }
        false
    }

    /// Offers `p` to the set. Returns whether it was new; a package that
    /// the set already holds leaves the set unchanged.
    pub fn insert(&mut self, p: PackageInfo) -> (r: bool)
        ensures
            r == !has_package(old(self)@, p@),
            final(self)@ == with_record(old(self)@, p@),
            distinct_packages(final(self)@),
    {
        proof {
            use_type_invariant(&*self);
        }
        if self.contains(&p) {
            return false;
        }
        proof {
            let s = records(self.entries@);
            assert(records(self.entries@.push(p)) =~= s.push(p@));
            assert forall|i: int, j: int| 0 <= i < j < s.push(p@).len() implies !(
            #[trigger] s.push(p@)[i]).same_package(#[trigger] s.push(p@)[j]) by {
                if j == s.len() {
                    assert(s[i].same_package(p@) == s.push(p@)[i].same_package(s.push(p@)[j]));
                } else {
                    assert(!s[i].same_package(s[j]));
                }
            }
        }
        let mut taken = PackageSet::new();
        core::mem::swap(self, &mut taken);
        let mut entries = taken.entries;
        entries.push(p);
        *self = PackageSet { entries };
        true
    }
}

/// How the lines of a listing are terminated.
#[derive(Clone, Copy, Debug, PartialEq, Eq, Structural)]
pub enum LineEnding {
    /// A line feed.
    Lf,
    /// A carriage return followed by a line feed.
    CrLf,
}

impl LineEnding {
    /// The characters that end a line.
    pub open spec fn separator(self) -> Seq<char> {
        match self {
            LineEnding::Lf => seq!['\n'],
            LineEnding::CrLf => seq!['\r', '\n'],
        }
    }

    /// The characters that end a line, as text.
    pub fn as_str(self) -> (r: &'static str)
        ensures
            r@ == self.separator(),
    {
        match self {
            LineEnding::Lf => {
                proof {
                    reveal_strlit("\n");
                }
                assert("\n"@ =~= seq!['\n']);
                "\n"
            },
            LineEnding::CrLf => {
                proof {
                    reveal_strlit("\r\n");
                }
                assert("\r\n"@ =~= seq!['\r', '\n']);
                "\r\n"
            },
        }
    }
}

/// A line that begins with `#` is a comment or a header, not a record.
pub open spec fn is_comment(line: Seq<char>) -> bool {
    line.len() > 0 && line[0] == '#'
}

/// The set that the lines of a listing build up, one line after another:
/// a comment contributes nothing, nor does a line that is no record, and
/// a record joins the set unless its package is already there.
pub open spec fn collect_records(lines: Seq<Seq<char>>, env_name: Seq<char>) -> Seq<PackageView>
    decreases lines.len(),
{
    if lines.len() == 0 {
        Seq::empty()
    } else {
        let before = collect_records(lines.drop_last(), env_name);
        match parse_record(lines.last(), env_name) {
            Some(p) if !is_comment(lines.last()) => with_record(before, p),
            _ => before,
        }
    }
}

/// The package set that the raw text of a listing describes.
pub open spec fn listing_records(
    output: Seq<char>,
    env_name: Seq<char>,
    ending: LineEnding,
) -> Seq<PackageView> {
    collect_records(split_on(output, ending.separator()), env_name)
}

/// Whether `line` begins with `#`.
pub fn is_comment_line(line: &str) -> (r: bool)
    ensures
        r == is_comment(line@),
{
    !line.is_empty() && line.get_char(0) == '#'
}

/// Reads the raw listing `output` of the environment `env_name` into its
/// package set. Lines that are comments or that do not parse are skipped.
pub fn get_package_info_by_env_name(env_name: String, output: &str, ending: LineEnding) -> (r:
    PackageSet)
    ensures
        r@ == listing_records(output@, env_name@, ending),
        distinct_packages(r@),
{
    let mut pip_set = PackageSet::new();
    let lines = split_text(output, ending.as_str());
    let ghost all = texts(lines@);
    let mut i: usize = 0;
    assert(all.take(0) =~= Seq::<Seq<char>>::empty());
    while i < lines.len()
        invariant
            i <= lines.len(),
            all == texts(lines@),
            pip_set@ == collect_records(all.take(i as int), env_name@),
            distinct_packages(pip_set@),
        decreases lines.len() - i,
    {
        let line = lines[i].as_str();
        proof {
            assert(all.take(i + 1).drop_last() =~= all.take(i as int));
            assert(all.take(i + 1).last() == line@);
        }
        if !is_comment_line(line) {
            let pi = PackageInfo::from_str(line, env_name.clone());
            if let Ok(p) = pi {
                pip_set.insert(p);
            }
        }
        i = i + 1;
    }
    assert(all.take(lines.len() as int) =~= all);
    pip_set
}

} // verus!
