//! The two-way comparison of package sets.
//!
//! The differences are computed on the full sets; the channel filter only
//! decides which of the differing records are rendered.

use crate::listing::{has_package, records, PackageSet};
use crate::package::{record_text, PackageInfo, PackageView};
use crate::render::{column_row, format_output, header_row, header_text};
use crate::sorting::{
    lemma_sort_is_permutation, lemma_sort_is_sorted, sort_by_name, sort_records, sorted_by_name,
};
use crate::text::texts;
use vstd::prelude::*;

verus! {

/// Which side of the comparison is reported.
#[derive(Clone, Copy, Debug, PartialEq, Eq, Structural)]
pub enum Mode {
    /// What only the first environment has.
    FirstOnly,
    /// What only the second environment has.
    SecondOnly,
    /// Both of these, as one sequence.
    Both,
}

impl Default for Mode {
    fn default() -> (r: Mode)
        ensures
            r == Mode::Both,
    {
        Mode::Both
    }
}

/// How a comparison is reported.
#[derive(Debug)]
pub struct DiffOptions {
    /// When set, only records of this channel are rendered.
    pub channel_filter: Option<String>,
    pub mode: Mode,
    /// Render rows of columns under a header. Takes effect in mode `Both`.
    pub column_format: bool,
}

/// A `DiffOptions` as plain values.
pub struct DiffOptionsView {
    pub channel_filter: Option<Seq<char>>,
    pub mode: Mode,
    pub column_format: bool,
}

impl View for DiffOptions {
    type V = DiffOptionsView;

    open spec fn view(&self) -> DiffOptionsView {
        DiffOptionsView {
            channel_filter: match self.channel_filter {
                Some(c) => Some(c@),
                None => None,
            },
            mode: self.mode,
            column_format: self.column_format,
        }
    }
}

impl DiffOptionsView {
    /// Rows of columns are rendered in mode `Both` only.
    pub open spec fn in_columns(self) -> bool {
        self.column_format && self.mode == Mode::Both
    }
}

/// A comparison was asked for with other than two environments.
#[derive(Debug)]
pub struct UsageError {
    /// How many environments were named.
    pub given: usize,
}

/// The two environments to compare, where exactly two were named.
pub fn environment_pair(envs: &Vec<String>) -> (r: Result<(String, String), UsageError>)
    ensures
        match r {
            Ok(pair) => envs@.len() == 2 && pair.0@ == envs@[0]@ && pair.1@ == envs@[1]@,
            Err(e) => envs@.len() != 2 && e.given == envs@.len(),
        },
{
    if envs.len() != 2 {
        return Err(UsageError { given: envs.len() });
    }
    Ok((envs[0].clone(), envs[1].clone()))
}

/// The test "`other` does not hold this package".
pub open spec fn absent_from(other: Seq<PackageView>) -> spec_fn(PackageView) -> bool {
    |p: PackageView| !has_package(other, p)
}

/// The records of `a` whose package `b` does not hold, in their order.
pub open spec fn only_in(a: Seq<PackageView>, b: Seq<PackageView>) -> Seq<PackageView> {
    a.filter(absent_from(b))
}

/// The differing records in the order in which they are reported: sorted by
/// name, and among records of one name those of the first set first.
pub open spec fn diff_sequence(
    first: Seq<PackageView>,
    second: Seq<PackageView>,
    mode: Mode,
) -> Seq<PackageView> {
    match mode {
        Mode::FirstOnly => sort_by_name(only_in(first, second)),
        Mode::SecondOnly => sort_by_name(only_in(second, first)),
        Mode::Both => sort_by_name(only_in(first, second) + only_in(second, first)),
    }
}

/// The test "this record passes the channel filter".
pub open spec fn passes(filter: Option<Seq<char>>) -> spec_fn(PackageView) -> bool {
    |p: PackageView|
        match filter {
            Some(c) => p.channel == c,
            None => true,
        }
}

/// The line for one record. In columns, the record's own environment tag
/// decides its column: the fifth if it names the first environment, the
/// sixth otherwise.
pub open spec fn line_of(first_env: Seq<char>, options: DiffOptionsView) -> spec_fn(
    PackageView,
) -> Seq<char> {
    |p: PackageView|
        if options.in_columns() {
            column_row(p, p.env_name == first_env)
        } else {
            record_text(p)
        }
}

/// The lines above the records: the header, where rows are in columns.
pub open spec fn heading(options: DiffOptionsView) -> Seq<Seq<char>> {
    if options.in_columns() {
        seq![header_text()]
    } else {
        Seq::empty()
    }
}

/// The lines that report `found`: the heading, then one line for each
/// record that passes the channel filter.
pub open spec fn report_lines(
    found: Seq<PackageView>,
    first_env: Seq<char>,
    options: DiffOptionsView,
) -> Seq<Seq<char>> {
    heading(options) + found.filter(passes(options.channel_filter)).map_values(
        line_of(first_env, options),
    )
}

/// The lines that report the comparison of `first` with `second`.
pub open spec fn diff_lines(
    first: Seq<PackageView>,
    second: Seq<PackageView>,
    first_env: Seq<char>,
    options: DiffOptionsView,
) -> Seq<Seq<char>> {
    report_lines(diff_sequence(first, second, options.mode), first_env, options)
}

/// Nothing in a set is absent from that set.
pub proof fn lemma_only_in_self_is_empty(a: Seq<PackageView>)
    ensures
        only_in(a, a) == Seq::<PackageView>::empty(),
{
    let kept = only_in(a, a);
    if kept.len() > 0 {
        let e = kept[0];
        a.lemma_filter_pred(absent_from(a), 0);
        assert(kept.contains(e));
        a.lemma_filter_contains_rev(absent_from(a), e);
        let i = choose|i: int| 0 <= i < a.len() && a[i] == e;
        assert(a[i].same_package(e));
    }
    assert(kept =~= Seq::<PackageView>::empty());
}

/// Comparing a set with itself finds no record, in every mode.
pub proof fn lemma_diff_of_equal_sets_is_empty(a: Seq<PackageView>, mode: Mode)
    ensures
        diff_sequence(a, a, mode) == Seq::<PackageView>::empty(),
{
    lemma_only_in_self_is_empty(a);
    assert(only_in(a, a) + only_in(a, a) =~= Seq::<PackageView>::empty());
}

/// The report of a set compared with itself holds no record line: it is
/// empty, or the header alone where rows are rendered in columns.
pub proof fn lemma_report_of_equal_sets(
    a: Seq<PackageView>,
    first_env: Seq<char>,
    options: DiffOptionsView,
)
    ensures
        diff_lines(a, a, first_env, options) == heading(options),
        !options.in_columns() ==> diff_lines(a, a, first_env, options) == Seq::<
            Seq<char>,
        >::empty(),
{
    lemma_diff_of_equal_sets_is_empty(a, options.mode);
    let none = Seq::<PackageView>::empty();
    none.lemma_filter_len(passes(options.channel_filter));
    assert(none.filter(passes(options.channel_filter)).map_values(line_of(first_env, options))
        =~= Seq::<Seq<char>>::empty());
    assert(heading(options) + Seq::<Seq<char>>::empty() =~= heading(options));
}

/// Swapping the two sets swaps the two one-sided reports, and leaves the
/// two-sided report with the same records, each as often as before; only
/// their order among records of one name may change.
pub proof fn lemma_diff_symmetric(a: Seq<PackageView>, b: Seq<PackageView>)
    ensures
        diff_sequence(a, b, Mode::FirstOnly) == diff_sequence(b, a, Mode::SecondOnly),
        diff_sequence(a, b, Mode::SecondOnly) == diff_sequence(b, a, Mode::FirstOnly),
        diff_sequence(a, b, Mode::Both).to_multiset() == diff_sequence(
            b,
            a,
            Mode::Both,
        ).to_multiset(),
{
    let x = only_in(a, b);
    let y = only_in(b, a);
    lemma_sort_is_permutation(x + y);
    lemma_sort_is_permutation(y + x);
    vstd::seq_lib::lemma_seq_union_to_multiset_commutative(x, y);
}

/// In columns, a record of the first environment shows its tag in the
/// fifth column and any other record in the sixth; so when the two sides
/// of a comparison are swapped, every row keeps its first four columns and
/// moves its tag to the other of the last two.
pub proof fn lemma_swapped_sides_swap_columns(
    p: PackageView,
    first_env: Seq<char>,
    second_env: Seq<char>,
    options: DiffOptionsView,
)
    requires
        options.in_columns(),
        p.env_name == first_env,
        first_env != second_env,
    ensures
        line_of(first_env, options)(p) == column_row(p, true),
        line_of(second_env, options)(p) == column_row(p, false),
{
}

/// The reported records never decrease by name.
pub proof fn lemma_diff_sorted(a: Seq<PackageView>, b: Seq<PackageView>, mode: Mode)
    ensures
        sorted_by_name(diff_sequence(a, b, mode)),
{
    lemma_sort_is_sorted(only_in(a, b));
    lemma_sort_is_sorted(only_in(b, a));
    lemma_sort_is_sorted(only_in(a, b) + only_in(b, a));
}

/// A record is reported in mode `Both` exactly when it is in one of the
/// sets and the other set does not hold its package.
pub proof fn lemma_diff_members(a: Seq<PackageView>, b: Seq<PackageView>, p: PackageView)
    ensures
        diff_sequence(a, b, Mode::Both).contains(p) <==> (a.contains(p) && !has_package(b, p)) || (
        b.contains(p) && !has_package(a, p)),
{
    let x = only_in(a, b);
    let y = only_in(b, a);
    lemma_sort_is_permutation(x + y);
    vstd::seq_lib::to_multiset_contains(sort_by_name(x + y), p);
    vstd::seq_lib::to_multiset_contains(x + y, p);
    assert((x + y).contains(p) <==> x.contains(p) || y.contains(p)) by {
        if x.contains(p) {
            let i = choose|i: int| 0 <= i < x.len() && x[i] == p;
            assert((x + y)[i] == p);
        }
        if y.contains(p) {
            let i = choose|i: int| 0 <= i < y.len() && y[i] == p;
            assert((x + y)[x.len() + i] == p);
        }
        if (x + y).contains(p) {
            let i = choose|i: int| 0 <= i < (x + y).len() && (x + y)[i] == p;
            if i < x.len() {
                assert(x[i] == p);
            } else {
                assert(y[i - x.len()] == p);
            }
        }
    }
    lemma_filter_members(a, absent_from(b), p);
    lemma_filter_members(b, absent_from(a), p);
}

/// What a filter keeps is what was there and meets the test.
proof fn lemma_filter_members(s: Seq<PackageView>, keep: spec_fn(PackageView) -> bool, p:
    PackageView)
    ensures
        s.filter(keep).contains(p) <==> s.contains(p) && keep(p),
{
    if s.filter(keep).contains(p) {
        s.lemma_filter_contains_rev(keep, p);
        let i = choose|i: int| 0 <= i < s.filter(keep).len() && s.filter(keep)[i] == p;
        s.lemma_filter_pred(keep, i);
    }
    if s.contains(p) && keep(p) {
        let i = choose|i: int| 0 <= i < s.len() && s[i] == p;
        s.lemma_filter_contains(keep, i);
    }
}

impl DiffOptions {
    /// The options that four command-line switches ask for. `first_only`
    /// goes before `second_only`; `pip_only` restricts the report to the
    /// channel `pypi`.
    pub fn from_flags(pip_only: bool, first_only: bool, second_only: bool, format: bool) -> (r:
        DiffOptions)
        ensures
            r@.channel_filter == (if pip_only {
                Some("pypi"@)
            } else {
                None
            }),
            r@.mode == (if first_only {
                Mode::FirstOnly
            } else if second_only {
                Mode::SecondOnly
            } else {
                Mode::Both
            }),
            r@.column_format == format,
    {
        let channel_filter = if pip_only {
            Some("pypi".to_owned())
        } else {
            None
        };
        let mode = if first_only {
            Mode::FirstOnly
        } else if second_only {
            Mode::SecondOnly
        } else {
            Mode::Both
        };
        DiffOptions { channel_filter, mode, column_format: format }
    }

    /// Whether `p` passes the channel filter.
    pub fn admits(&self, p: &PackageInfo) -> (r: bool)
        ensures
            r == passes(self@.channel_filter)(p@),
    {
        match &self.channel_filter {
            Some(c) => p.channel == *c,
            None => true,
        }
    }
}

impl PackageSet {
    /// The records of this set whose package `other` does not hold.
    pub fn difference(&self, other: &PackageSet) -> (out: Vec<PackageInfo>)
        ensures
            records(out@) == only_in(self@, other@),
    {
        let mut out: Vec<PackageInfo> = Vec::new();
        let n = self.len();
        let mut i: usize = 0;
        proof {
            assert(self@.take(0) =~= Seq::<PackageView>::empty());
            assert(records(out@) =~= Seq::<PackageView>::empty());
            reveal(Seq::filter);
        }
        while i < n
            invariant
                i <= n,
                n == self@.len(),
                records(out@) == only_in(self@.take(i as int), other@),
            decreases n - i,
        {
            if let Some(p) = self.get(i) {
                proof {
                    assert(self@.take(i + 1) =~= self@.take(i as int).push(p@));
                    self@.take(i as int).lemma_filter_push(p@, absent_from(other@));
                }
                if !other.contains(p) {
                    let kept = p.clone();
                    assert(records(out@.push(kept)) =~= records(out@).push(p@));
                    out.push(kept);
                }
            }
            i = i + 1;
        }
        assert(self@.take(n as int) =~= self@);
        out
    }
}

/// The records in which the two sets differ, in the order of the report.
pub fn diff_records(first: &PackageSet, second: &PackageSet, mode: Mode) -> (out: Vec<
    PackageInfo,
>)
    ensures
        records(out@) == diff_sequence(first@, second@, mode),
        sorted_by_name(records(out@)),
{
    match mode {
        Mode::FirstOnly => {
            let diff_vec = first.difference(second);
            sort_records(&diff_vec)
        },
        Mode::SecondOnly => {
            let diff_vec = second.difference(first);
            sort_records(&diff_vec)
        },
        Mode::Both => {
            let mut diff_vec_1 = first.difference(second);
            let mut diff_vec_2 = second.difference(first);
            proof {
                assert(records(diff_vec_1@ + diff_vec_2@) =~= records(diff_vec_1@) + records(
                    diff_vec_2@,
                ));
            }
            diff_vec_1.append(&mut diff_vec_2);
            sort_records(&diff_vec_1)
        },
    }
}

/// Renders one record as the options ask.
pub fn render_record(p: &PackageInfo, first_env: &str, options: &DiffOptions) -> (r: String)
    ensures
        r@ == line_of(first_env@, options@)(p@),
{
    let in_columns = options.column_format && match options.mode {
        Mode::Both => true,
        _ => false,
    };
    if in_columns {
        let first = p.env_name.as_str().to_owned() == first_env.to_owned();
        format_output(p, first)
    } else {
        p.to_text()
    }
}

/// Renders the report of the records `found`.
pub fn render(found: &Vec<PackageInfo>, first_env: &str, options: &DiffOptions) -> (out: Vec<
    String,
>)
    ensures
        texts(out@) == report_lines(records(found@), first_env@, options@),
{
    let ghost all = records(found@);
    let ghost keep = passes(options@.channel_filter);
    let ghost line = line_of(first_env@, options@);
    let mut out: Vec<String> = Vec::new();
    let in_columns = options.column_format && match options.mode {
        Mode::Both => true,
        _ => false,
    };
    if in_columns {
        out.push(header_row());
    }
    let mut i: usize = 0;
    proof {
        reveal(Seq::filter);
        assert(all.take(0) =~= Seq::<PackageView>::empty());
        assert(texts(out@) =~= heading(options@) + all.take(0).filter(keep).map_values(line));
    }
    while i < found.len()
        invariant
            i <= found.len(),
            all == records(found@),
            keep == passes(options@.channel_filter),
            line == line_of(first_env@, options@),
            texts(out@) == heading(options@) + all.take(i as int).filter(keep).map_values(line),
        decreases found.len() - i,
    {
        let p = &found[i];
        proof {
            assert(all.take(i + 1) =~= all.take(i as int).push(p@));
            all.take(i as int).lemma_filter_push(p@, keep);
        }
        if options.admits(p) {
            let text = render_record(p, first_env, options);
            proof {
                let kept = all.take(i as int).filter(keep);
                assert(kept.push(p@).map_values(line) =~= kept.map_values(line).push(text@));
                assert(texts(out@.push(text)) =~= texts(out@).push(text@));
                assert(texts(out@).push(text@) =~= heading(options@) + kept.map_values(
                    line,
                ).push(text@));
            }
            out.push(text);
        }
        i = i + 1;
    }
    assert(all.take(found.len() as int) =~= all);
    out
}

/// Compares the package set `first` of the environment `first_env` with
/// the package set `second` of `second_env` and renders the report.
///
/// A record stands in the first environment's column when its own tag is
/// `first_env`; `second_env` names the other column and decides nothing.
pub fn diff(
    first: &PackageSet,
    second: &PackageSet,
    first_env: &str,
    second_env: &str,
    options: &DiffOptions,
) -> (out: Vec<String>)
    ensures
        texts(out@) == diff_lines(first@, second@, first_env@, options@),
{
    let found = diff_records(first, second, options.mode);
    render(&found, first_env, options)
}

} // verus!
