use vstd::prelude::*;

use crate::numfmt::{i32_to_string, spec_int_str};
use crate::site::{Website, WebsiteView};

verus! {

/// `unit` written out `n` times.
pub open spec fn spec_repeat(unit: Seq<char>, n: nat) -> Seq<char>
    decreases n,
{
    if n == 0 {
        Seq::empty()
    } else {
        spec_repeat(unit, (n - 1) as nat) + unit
    }
}

/// `s` left-aligned in a field of width `w`: padded with spaces up to `w`,
/// or kept as it is when already at least that wide.
pub open spec fn spec_pad(s: Seq<char>, w: nat) -> Seq<char> {
    if s.len() >= w {
        s
    } else {
        s + spec_repeat(" "@, (w - s.len()) as nat)
    }
}

/// One table row of the site list: the URL and the status, each in its
/// column.
pub open spec fn spec_website_row(w: WebsiteView) -> Seq<char> {
    spec_pad(w.url, 40) + " | "@ + spec_pad(spec_int_str(w.status), 6) + "\n"@
}

/// All table rows, in list order.
pub open spec fn spec_website_rows(webs: Seq<WebsiteView>) -> Seq<char>
    decreases webs.len(),
{
    if webs.len() == 0 {
        Seq::empty()
    } else {
        spec_website_row(webs[0]) + spec_website_rows(webs.drop_first())
    }
}

/// The chat message listing a user's tracked sites: a placeholder sentence
/// for an empty list, otherwise a preformatted table of URL and status
/// columns.
pub open spec fn spec_format_website_list(webs: Seq<WebsiteView>) -> Seq<char> {
    if webs.len() == 0 {
        "You aren't tracking any sites yet."@
    } else {
        "Here are your tracked domains:\n\n<pre>"@ + spec_pad("URL"@, 40) + " | "@ + spec_pad(
            "Status"@,
            6,
        ) + "\n"@ + spec_repeat("-"@, 50) + "\n"@ + spec_website_rows(webs) + "</pre>"@
    }
}

fn repeat_str(unit: &str, n: usize) -> (r: String)
    ensures
        r@ == spec_repeat(unit@, n as nat),
{
    let mut r = String::new();
    let mut i: usize = 0;
    while i < n
        invariant
            i <= n,
            r@ == spec_repeat(unit@, i as nat),
        decreases n - i,
    {
        r.append(unit);
        i += 1;
    }
    r
}

fn pad_to(s: &str, w: usize) -> (r: String)
    ensures
        r@ == spec_pad(s@, w as nat),
{
    let len = s.unicode_len();
    if len >= w {
        String::from_str(s)
    } else {
        let mut r = String::from_str(s);
        r.append(repeat_str(" ", w - len).as_str());
        r
    }
}

proof fn lemma_rows_push(webs: Seq<WebsiteView>, w: WebsiteView)
    ensures
        spec_website_rows(webs.push(w)) == spec_website_rows(webs) + spec_website_row(w),
    decreases webs.len(),
{
    if webs.len() == 0 {
        assert(webs.push(w).drop_first() =~= webs);
        assert(spec_website_rows(webs.push(w)) =~= spec_website_rows(webs) + spec_website_row(w));
    } else {
        assert(webs.push(w).drop_first() =~= webs.drop_first().push(w));
        lemma_rows_push(webs.drop_first(), w);
        assert(spec_website_rows(webs.push(w)) =~= spec_website_rows(webs) + spec_website_row(w));
    }
}

/// Builds the chat message listing the given tracked sites.
pub fn format_website_list(websites: &Vec<Website>) -> (r: String)
    ensures
        r@ == spec_format_website_list(websites.deep_view()),
{
    if websites.len() == 0 {
        proof {
            assert(websites.deep_view().len() == 0);
        }
        return String::from_str("You aren't tracking any sites yet.");
    }
    let mut table = String::from_str("Here are your tracked domains:\n\n<pre>");
    table.append(pad_to("URL", 40).as_str());
    table.append(" | ");
    table.append(pad_to("Status", 6).as_str());
    table.append("\n");
    table.append(repeat_str("-", 50).as_str());
    table.append("\n");
    let ghost prefix = table@;
    let mut i: usize = 0;
    while i < websites.len()
        invariant
            i <= websites@.len(),
            table@ == prefix + spec_website_rows(websites.deep_view().take(i as int)),
        decreases websites@.len() - i,
    {
        let site = &websites[i];
        table.append(pad_to(site.url.as_str(), 40).as_str());
        table.append(" | ");
        table.append(pad_to(i32_to_string(site.status).as_str(), 6).as_str());
        table.append("\n");
        proof {
            let dv = websites.deep_view();
            assert(dv.take(i + 1) =~= dv.take(i as int).push(dv[i as int]));
            lemma_rows_push(dv.take(i as int), dv[i as int]);
            assert(table@ =~= prefix + spec_website_rows(dv.take(i + 1)));
        }
        i += 1;
    }
    table.append("</pre>");
    proof {
        assert(websites.deep_view().take(websites@.len() as int) =~= websites.deep_view());
        assert(table@ =~= spec_format_website_list(websites.deep_view()));
    }
    table
}

} // verus!
