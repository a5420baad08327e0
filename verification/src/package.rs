//! The package record: its data, how a listing line is read into it, and
//! what makes two records the same package.

use crate::text::{
    fields, lemma_lex_le_reflexive, lemma_space_run_collapses, lex_le, split_fields, text_le,
    texts,
};
use core::cmp::Ordering;
use vstd::prelude::*;

verus! {

/// What a package record holds, as plain text.
pub struct PackageView {
    pub name: Seq<char>,
    pub version: Seq<char>,
    pub build: Seq<char>,
    pub channel: Seq<char>,
    pub env_name: Seq<char>,
}

impl PackageView {
    /// Two records describe the same package when name, version, build and
    /// channel agree. The environment in which a record was seen plays no
    /// part.
    pub open spec fn same_package(self, other: PackageView) -> bool {
        &&& self.name == other.name
        &&& self.version == other.version
        &&& self.build == other.build
        &&& self.channel == other.channel
    }
}

/// One installed package, tagged with the environment it was seen in.
#[derive(Debug)]
pub struct PackageInfo {
    pub name: String,
    pub version: String,
    pub build: String,
    /// Empty when the listing names no channel.
    pub channel: String,
    pub env_name: String,
}

impl View for PackageInfo {
    type V = PackageView;

    open spec fn view(&self) -> PackageView {
        PackageView {
            name: self.name@,
            version: self.version@,
            build: self.build@,
            channel: self.channel@,
            env_name: self.env_name@,
        }
    }
}

impl Clone for PackageInfo {
    fn clone(&self) -> (r: Self)
        ensures
            r == *self,
    {
        PackageInfo {
            name: self.name.clone(),
            version: self.version.clone(),
            build: self.build.clone(),
            channel: self.channel.clone(),
            env_name: self.env_name.clone(),
        }
    }
}

/// Records are equal when they are the same package; the environment
/// name is not compared.
impl PartialEq for PackageInfo {
    fn eq(&self, other: &Self) -> (r: bool) {
        self.name == other.name && self.version == other.version && self.build == other.build
            && self.channel == other.channel
    }
}

impl vstd::std_specs::cmp::PartialEqSpecImpl for PackageInfo {
    open spec fn obeys_eq_spec() -> bool {
        true
    }

    open spec fn eq_spec(&self, other: &Self) -> bool {
        self@.same_package(other@)
    }
}

impl Eq for PackageInfo {

}

/// How `a` stands to `b` in the lexical order of code points.
pub open spec fn lex_ordering(a: Seq<char>, b: Seq<char>) -> Ordering {
    if a == b {
        Ordering::Equal
    } else if lex_le(a, b) {
        Ordering::Less
    } else {
        Ordering::Greater
    }
}

/// "At or before" and "not greater" are the same thing.
pub proof fn lemma_lex_ordering_agrees(a: Seq<char>, b: Seq<char>)
    ensures
        lex_le(a, b) <==> lex_ordering(a, b) != Ordering::Greater,
{
    lemma_lex_le_reflexive(a);
}

/// Records are ordered by name alone, whatever their other fields hold.
impl PartialOrd for PackageInfo {
    fn partial_cmp(&self, other: &Self) -> (r: Option<Ordering>) {
        if self.name == other.name {
            Some(Ordering::Equal)
        } else if text_le(self.name.as_str(), other.name.as_str()) {
            Some(Ordering::Less)
        } else {
            Some(Ordering::Greater)
        }
    }
}

impl vstd::std_specs::cmp::PartialOrdSpecImpl for PackageInfo {
    open spec fn obeys_partial_cmp_spec() -> bool {
        true
    }

    /// Records are ordered by name alone.
    open spec fn partial_cmp_spec(&self, other: &Self) -> Option<Ordering> {
        Some(lex_ordering(self.name@, other.name@))
    }
}

/// Whether two records are the same package does not depend on the
/// environments they were seen in.
pub proof fn lemma_same_package_ignores_environment(
    p: PackageView,
    q: PackageView,
    env_p: Seq<char>,
    env_q: Seq<char>,
)
    ensures
        p.same_package(q) == (PackageView { env_name: env_p, ..p }).same_package(
            PackageView { env_name: env_q, ..q },
        ),
        p.same_package(PackageView { env_name: env_q, ..p }),
{
}

/// A line that does not have three or four fields.
#[derive(Debug)]
pub struct ParseError {
    /// How many fields the line had.
    pub field_count: usize,
}

/// The record that a listing line stands for: three fields are name,
/// version and build, with no channel; four fields add the channel. A line
/// with any other number of fields stands for nothing.
pub open spec fn parse_record(line: Seq<char>, env_name: Seq<char>) -> Option<PackageView> {
    let f = fields(line);
    if f.len() == 3 {
        Some(
            PackageView {
                name: f[0],
                version: f[1],
                build: f[2],
                channel: Seq::empty(),
                env_name,
            },
        )
    } else if f.len() == 4 {
        Some(PackageView { name: f[0], version: f[1], build: f[2], channel: f[3], env_name })
    } else {
        None
    }
}

/// A line reads the same however many spaces stand where it has one.
pub proof fn lemma_parse_ignores_space_runs(a: Seq<char>, b: Seq<char>, env_name: Seq<char>)
    ensures
        parse_record(a + seq![' ', ' '] + b, env_name) == parse_record(
            a + seq![' '] + b,
            env_name,
        ),
{
    lemma_space_run_collapses(a, b);
}

/// The one-line free-text form of a record.
pub open spec fn record_text(p: PackageView) -> Seq<char> {
    "(name "@ + p.name + ", version "@ + p.version + ",build "@ + p.build + ", channel "@
        + p.channel + ",env_name "@ + p.env_name + ")"@
}

impl PackageInfo {
    /// The record as one line of free text.
    pub fn to_text(&self) -> (r: String)
        ensures
            r@ == record_text(self@),
    {
        let mut out = String::new();
        out.append("(name ");
        out.append(self.name.as_str());
        out.append(", version ");
        out.append(self.version.as_str());
        out.append(",build ");
        out.append(self.build.as_str());
        out.append(", channel ");
        out.append(self.channel.as_str());
        out.append(",env_name ");
        out.append(self.env_name.as_str());
        out.append(")");
        assert(out@ =~= record_text(self@));
        out
    }

    /// Reads one listing line as a record of the environment `env_name`.
    pub fn from_str(s: &str, env_name: String) -> (r: Result<PackageInfo, ParseError>)
        ensures
            match r {
                Ok(p) => parse_record(s@, env_name@) == Some(p@),
                Err(e) => parse_record(s@, env_name@) is None && e.field_count == fields(s@).len(),
            },
            fields(s@).len() == 3 ==> r is Ok && r->Ok_0.channel@.len() == 0,
            fields(s@).len() == 4 ==> r is Ok && r->Ok_0.channel@ == fields(s@)[3],
            fields(s@).len() != 3 && fields(s@).len() != 4 ==> r is Err,
    {
        let res = split_fields(s);
        assert(texts(res@).len() == res@.len());
        if res.len() == 3 {
            return Ok(
                PackageInfo {
                    name: res[0].clone(),
                    version: res[1].clone(),
                    build: res[2].clone(),
                    channel: String::new(),
                    env_name,
                },
            );
        }
        if res.len() == 4 {
            return Ok(
                PackageInfo {
                    name: res[0].clone(),
                    version: res[1].clone(),
                    build: res[2].clone(),
                    channel: res[3].clone(),
                    env_name,
                },
            );
        }
        Err(ParseError { field_count: res.len() })
    }
}

} // verus!
