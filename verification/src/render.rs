//! Rendering records as lines of text: free text, or six columns of fixed
//! width.

use crate::package::{PackageInfo, PackageView};
use vstd::prelude::*;

verus! {

/// The width of a column, in characters.
pub const FIXED_LENGTH: usize = 20;

/// `n` spaces.
pub open spec fn blanks(n: nat) -> Seq<char> {
    Seq::new(n, |i: int| ' ')
}

/// `s` brought to the column width: a shorter text gets spaces in front, a
/// longer one loses what lies beyond the width.
pub open spec fn pad_column(s: Seq<char>) -> Seq<char> {
    if s.len() < FIXED_LENGTH {
        blanks((FIXED_LENGTH - s.len()) as nat) + s
    } else {
        s.take(FIXED_LENGTH as int)
    }
}

/// The six columns of a record: name, version, build and channel, then the
/// environment name in the fifth column for a record of the first
/// environment and in the sixth otherwise, the other of the two left blank.
pub open spec fn column_row(p: PackageView, first: bool) -> Seq<char> {
    pad_column(p.name) + pad_column(p.version) + pad_column(p.build) + pad_column(p.channel) + (
    if first {
        pad_column(p.env_name) + pad_column(Seq::empty())
    } else {
        pad_column(Seq::empty()) + pad_column(p.env_name)
    })
}

/// The row of column titles.
pub open spec fn header_text() -> Seq<char> {
    pad_column("Name"@) + pad_column("Version"@) + pad_column("Build"@) + pad_column("Channel"@)
        + pad_column("First env"@) + pad_column("Second env"@)
}

/// Every padded text is exactly one column wide.
pub proof fn lemma_pad_column_width(s: Seq<char>)
    ensures
        pad_column(s).len() == FIXED_LENGTH,
{
}

/// `n` spaces, as text.
fn spaces(n: usize) -> (r: String)
    ensures
        r@ == blanks(n as nat),
{
    let mut out = String::new();
    let mut i: usize = 0;
    proof {
        reveal_strlit(" ");
    }
    assert(out@ =~= blanks(0));
    while i < n
        invariant
            i <= n,
            out@ == blanks(i as nat),
            " "@ == seq![' '],
        decreases n - i,
    {
        out.append(" ");
        assert(out@ =~= blanks((i + 1) as nat));
        i = i + 1;
    }
    out
}

/// Brings `s` to the column width.
pub fn padding_string(s: &str) -> (r: String)
    ensures
        r@ == pad_column(s@),
{
    let n = s.unicode_len();
    if n < FIXED_LENGTH {
        let padding_size = FIXED_LENGTH - n;
        let mut out = spaces(padding_size);
        out.append(s);
        out
    } else {
        s.substring_char(0, FIXED_LENGTH).to_owned()
    }
}

/// Renders a record as a row of six columns.
pub fn format_output(p: &PackageInfo, first: bool) -> (r: String)
    ensures
        r@ == column_row(p@, first),
{
    let mut out = padding_string(p.name.as_str());
    out.append(padding_string(p.version.as_str()).as_str());
    out.append(padding_string(p.build.as_str()).as_str());
    out.append(padding_string(p.channel.as_str()).as_str());
    let env = padding_string(p.env_name.as_str());
    let blank = padding_string("");
    assert(""@ =~= Seq::<char>::empty()) by {
        reveal_strlit("");
    }
    if first {
        out.append(env.as_str());
        out.append(blank.as_str());
    } else {
        out.append(blank.as_str());
        out.append(env.as_str());
    }
    assert(out@ =~= column_row(p@, first));
    out
}

/// Renders the row of column titles.
pub fn header_row() -> (r: String)
    ensures
        r@ == header_text(),
{
    let mut out = padding_string("Name");
    out.append(padding_string("Version").as_str());
    out.append(padding_string("Build").as_str());
    out.append(padding_string("Channel").as_str());
    out.append(padding_string("First env").as_str());
    out.append(padding_string("Second env").as_str());
    assert(out@ =~= header_text());
    out
}

} // verus!
