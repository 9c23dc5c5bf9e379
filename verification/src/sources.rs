//! Source loading: the built-in categories with their bundled resource
//! names, the caller's category selection, and the parsing of a source
//! list (one URL per line, `#` comments and blank lines ignored).

use vstd::prelude::*;
use vstd::string::*;
use crate::text::{line_split, split_lines, trim, trimmed};

verus! {

/// A built-in grouping of bundled source URLs by blocking purpose.
#[derive(Clone, Copy, PartialEq, Eq, Structural, Debug)]
pub enum Category {
    Ads,
    Trackers,
    Malware,
    Phishing,
    SmartTV,
    NSFW,
}

impl Category {
    /// The name of the bundled resource that lists this category's
    /// source URLs.
    pub open spec fn spec_filename(self) -> Seq<char> {
        match self {
            Category::Ads => "ads.txt"@,
            Category::Trackers => "trackers.txt"@,
            Category::Malware => "malware.txt"@,
            Category::Phishing => "phishing.txt"@,
            Category::SmartTV => "smart_tv.txt"@,
            Category::NSFW => "nsfw.txt"@,
        }
    }

    /// The name of the bundled resource that lists this category's
    /// source URLs.
    pub fn filename(&self) -> (r: &'static str)
        ensures
            r@ == self.spec_filename(),
    {
        match self {
            Category::Ads => "ads.txt",
            Category::Trackers => "trackers.txt",
            Category::Malware => "malware.txt",
            Category::Phishing => "phishing.txt",
            Category::SmartTV => "smart_tv.txt",
            Category::NSFW => "nsfw.txt",
        }
    }
}

/// Which categories the caller selected on the command line.
#[derive(Clone, Copy, PartialEq, Eq, Structural, Debug)]
pub struct Selection {
    pub ads: bool,
    pub trackers: bool,
    pub malware: bool,
    pub phishing: bool,
    pub smart_tv: bool,
    pub nsfw: bool,
}

/// The categories a selection names, in their fixed order.
pub open spec fn spec_selected(sel: Selection) -> Seq<Category> {
    (if sel.ads {
        seq![Category::Ads]
    } else {
        Seq::<Category>::empty()
    }) + (if sel.trackers {
        seq![Category::Trackers]
    } else {
        Seq::<Category>::empty()
    }) + (if sel.malware {
        seq![Category::Malware]
    } else {
        Seq::<Category>::empty()
    }) + (if sel.phishing {
        seq![Category::Phishing]
    } else {
        Seq::<Category>::empty()
    }) + (if sel.smart_tv {
        seq![Category::SmartTV]
    } else {
        Seq::<Category>::empty()
    }) + (if sel.nsfw {
        seq![Category::NSFW]
    } else {
        Seq::<Category>::empty()
    })
}

/// The categories a selection names, in their fixed order; a selection
/// with no flag set yields none.
pub fn selected_category(sel: &Selection) -> (cats: Vec<Category>)
    ensures
        cats@ == spec_selected(*sel),
{
    let mut cats: Vec<Category> = Vec::new();
    if sel.ads {
        cats.push(Category::Ads);
    }
    if sel.trackers {
        cats.push(Category::Trackers);
    }
    if sel.malware {
        cats.push(Category::Malware);
    }
    if sel.phishing {
        cats.push(Category::Phishing);
    }
    if sel.smart_tv {
        cats.push(Category::SmartTV);
    }
    if sel.nsfw {
        cats.push(Category::NSFW);
    }
    proof {
        assert(cats@ =~= spec_selected(*sel));
    }
    cats
}

/// A trimmed line of a source list that names a URL: non-empty and not a
/// `#` comment.
pub open spec fn keep_url(t: Seq<char>) -> bool {
    t.len() > 0 && t[0] != '#'
}

/// The URLs named by a sequence of source-list lines: each line trimmed,
/// blank lines and `#` comments dropped.
pub open spec fn source_urls_of_lines(ls: Seq<Seq<char>>) -> Seq<Seq<char>>
    decreases ls.len(),
{
    if ls.len() == 0 {
        Seq::empty()
    } else {
        let t = trimmed(ls[0]);
        let rest = source_urls_of_lines(ls.skip(1));
        if keep_url(t) {
            seq![t] + rest
        } else {
            rest
        }
    }
}

/// The URLs named by a source-list text.
pub open spec fn source_urls(text: Seq<char>) -> Seq<Seq<char>> {
    source_urls_of_lines(line_split(text))
}

/// Read the URLs out of a source-list text: one per line, trimmed, with
/// blank lines and `#` comments dropped.
pub fn read_sources(text: &str) -> (urls: Vec<String>)
    ensures
        urls.deep_view() == source_urls(text@),
{
    let lines = split_lines(text);
    let mut urls: Vec<String> = Vec::new();
    let n: usize = lines.len();
    let mut i: usize = 0;
    proof {
        assert(lines.deep_view().skip(0) =~= lines.deep_view());
        assert(urls.deep_view() =~= Seq::<Seq<char>>::empty());
    }
    while i < n
        invariant
            n == lines@.len(),
            i <= n,
            lines.deep_view() == line_split(text@),
            source_urls(text@) == urls.deep_view() + source_urls_of_lines(
                lines.deep_view().skip(i as int),
            ),
        decreases n - i,
    {
        let ghost pre = urls.deep_view();
        let ghost suf = lines.deep_view().skip(i as int);
        let t = trim(lines[i].as_str());
        proof {
            assert(suf[0] == lines.deep_view()[i as int]);
            assert(suf.skip(1) =~= lines.deep_view().skip(i + 1));
        }
        if t.unicode_len() > 0 && t.get_char(0) != '#' {
            urls.push(String::from_str(t));
            proof {
                assert(urls.deep_view() =~= pre.push(t@));
                assert(pre.push(t@) + source_urls_of_lines(suf.skip(1)) =~= pre + source_urls_of_lines(suf));
            }
        }
        i = i + 1;
    }
    proof {
        assert(lines.deep_view().skip(n as int) =~= Seq::<Seq<char>>::empty());
        assert(source_urls(text@) =~= urls.deep_view());
    }
    urls
}

} // verus!
