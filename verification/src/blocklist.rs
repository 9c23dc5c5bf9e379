//! Deduplication and output: a set of extracted domains, the processing
//! of fetched content into it, and the rendering of the final
//! hosts-format blocklist.

use vstd::prelude::*;
use vstd::string::*;
use crate::extract::{
    extract_domain, is_canonical_domain, is_valid_domain, prefix_zero, spec_extract,
};
use crate::sources::{spec_selected, Selection};
use crate::text::{
    contains_space, is_space, lemma_line_split_first, line_split, split_lines, str_eq,
};

verus! {

/// No two entries hold the same domain.
pub open spec fn distinct_domains(ds: Seq<Seq<char>>) -> bool {
    forall|i: int, j: int| 0 <= i < j < ds.len() ==> ds[i] != ds[j]
}

/// `ds` with `d` added, unless it is already present.
pub open spec fn insert_domain(ds: Seq<Seq<char>>, d: Seq<char>) -> Seq<Seq<char>> {
    if ds.contains(d) {
        ds
    } else {
        ds.push(d)
    }
}

/// The set of domains accumulated from a sequence of lines, starting
/// from `acc`: each line's extracted domain, if any, inserted in order.
pub open spec fn accumulate_lines(ls: Seq<Seq<char>>, acc: Seq<Seq<char>>) -> Seq<Seq<char>>
    decreases ls.len(),
{
    if ls.len() == 0 {
        acc
    } else {
        let acc2 = match spec_extract(ls[0]) {
            Some(d) => insert_domain(acc, d),
            None => acc,
        };
        accumulate_lines(ls.skip(1), acc2)
    }
}

/// The rendered blocklist: one `0.0.0.0 <domain>` line per entry, each
/// terminated by a newline.
pub open spec fn rendered(ds: Seq<Seq<char>>) -> Seq<char>
    decreases ds.len(),
{
    if ds.len() == 0 {
        Seq::empty()
    } else {
        prefix_zero() + ds[0] + seq!['\n'] + rendered(ds.skip(1))
    }
}

/// The accumulated set of extracted domains, keyed by exact string
/// value: insertion is idempotent, and every entry is a bare domain.
pub struct DomainSet {
    domains: Vec<String>,
}

impl View for DomainSet {
    type V = Seq<Seq<char>>;

    closed spec fn view(&self) -> Seq<Seq<char>> {
        self.domains.deep_view()
    }
}

impl DomainSet {
    /// Entries are pairwise distinct and each is a bare domain.
    pub open spec fn wf(&self) -> bool {
        &&& distinct_domains(self@)
        &&& forall|i: int| 0 <= i < self@.len() ==> is_valid_domain(self@[i])
    }

    /// The empty set.
    pub fn new() -> (s: Self)
        ensures
            s@ == Seq::<Seq<char>>::empty(),
            s.wf(),
    {
        let s = DomainSet { domains: Vec::new() };
        proof {
            assert(s@ =~= Seq::<Seq<char>>::empty());
        }
        s
    }

    /// How many domains the set holds.
    pub fn len(&self) -> (n: usize)
        ensures
            n == self@.len(),
    {
        self.domains.len()
    }

    /// The domain at position `i`, in insertion order.
    pub fn domain_at(&self, i: usize) -> (d: &String)
        requires
            i < self@.len(),
        ensures
            d@ == self@[i as int],
    {
        &self.domains[i]
    }

    /// True when the set already holds `d`.
    pub fn has_domain(&self, d: &str) -> (b: bool)
        ensures
            b == self@.contains(d@),
    {
        let n: usize = self.domains.len();
        let mut i: usize = 0;
        while i < n
            invariant
                n == self@.len(),
                i <= n,
                self@ == self.domains.deep_view(),
                forall|k: int| 0 <= k < i ==> self@[k] != d@,
            decreases n - i,
        {
            proof {
                assert(self@[i as int] == self.domains@[i as int]@);
            }
            if str_eq(self.domains[i].as_str(), d) {
                return true;
            }
            i = i + 1;
        }
        false
    }

    /// Insert a domain; a duplicate leaves the set unchanged.
    pub fn insert(&mut self, d: String)
        requires
            old(self).wf(),
            is_valid_domain(d@),
        ensures
            final(self).wf(),
            final(self)@ == insert_domain(old(self)@, d@),
    {
        if !self.has_domain(d.as_str()) {
            let ghost pre = self@;
            self.domains.push(d);
            proof {
                assert(self@ =~= pre.push(d@));
            }
        }
    }
}

/// Extract a domain from every line of one source's fetched content and
/// insert each into the set.
pub fn process_content(content: &str, set: &mut DomainSet)
    requires
        old(set).wf(),
    ensures
        final(set).wf(),
        final(set)@ == accumulate_lines(line_split(content@), old(set)@),
{
    let lines = split_lines(content);
    let n: usize = lines.len();
    let mut i: usize = 0;
    proof {
        assert(lines.deep_view().skip(0) =~= lines.deep_view());
    }
    while i < n
        invariant
            n == lines@.len(),
            i <= n,
            lines.deep_view() == line_split(content@),
            set.wf(),
            accumulate_lines(line_split(content@), old(set)@) == accumulate_lines(
                lines.deep_view().skip(i as int),
                set@,
            ),
        decreases n - i,
    {
        let ghost suf = lines.deep_view().skip(i as int);
        proof {
            assert(suf[0] == lines.deep_view()[i as int]);
            assert(suf.skip(1) =~= lines.deep_view().skip(i + 1));
        }
        match extract_domain(lines[i].as_str()) {
            Some(d) => {
                set.insert(d);
            },
            None => {
            },
        }
        i = i + 1;
    }
    proof {
        assert(lines.deep_view().skip(n as int) =~= Seq::<Seq<char>>::empty());
    }
}

/// Render the set as the blocklist file: one `0.0.0.0 <domain>` line per
/// entry, in the set's order.
pub fn render_blocklist(set: &DomainSet) -> (out: String)
    ensures
        out@ == rendered(set@),
{
    let mut out = String::new();
    let n: usize = set.len();
    let mut i: usize = 0;
    proof {
        assert(set@.skip(0) =~= set@);
        assert(out@ + rendered(set@) =~= rendered(set@));
    }
    while i < n
        invariant
            n == set@.len(),
            i <= n,
            rendered(set@) == out@ + rendered(set@.skip(i as int)),
        decreases n - i,
    {
        let ghost pre = out@;
        let ghost suf = set@.skip(i as int);
        out.append("0.0.0.0 ");
        out.append(set.domain_at(i).as_str());
        out.append("\n");
        proof {
            reveal_strlit("0.0.0.0 ");
            reveal_strlit("\n");
            assert("0.0.0.0 "@ =~= prefix_zero());
            assert("\n"@ =~= seq!['\n']);
            assert(suf[0] == set@[i as int]);
            assert(suf.skip(1) =~= set@.skip(i + 1));
            assert(rendered(suf) == prefix_zero() + suf[0] + seq!['\n'] + rendered(suf.skip(1)));
            assert(out@ =~= pre + (prefix_zero() + set@[i as int] + seq!['\n']));
            assert(out@ + rendered(set@.skip(i + 1)) =~= pre + rendered(suf));
        }
        i = i + 1;
    }
    proof {
        assert(set@.skip(n as int) =~= Seq::<Seq<char>>::empty());
        assert(out@ =~= rendered(set@));
    }
    out
}

/// The rendered lines of a sequence of bare domains are exactly the
/// domains, each behind the `0.0.0.0 ` prefix.
pub proof fn lemma_rendered_lines(ds: Seq<Seq<char>>)
    requires
        forall|i: int| 0 <= i < ds.len() ==> is_valid_domain(ds[i]),
    ensures
        line_split(rendered(ds)) == Seq::new(ds.len(), |i: int| prefix_zero() + ds[i]),
    decreases ds.len(),
{
    if ds.len() == 0 {
        assert(line_split(rendered(ds)) =~= Seq::new(0, |i: int| prefix_zero() + ds[i]));
    } else {
        let full = rendered(ds);
        let d0 = ds[0];
        let nl = 8 + d0.len() as int;
        assert(full =~= (prefix_zero() + d0 + seq!['\n']) + rendered(ds.skip(1)));
        assert(forall|k: int| 0 <= k < 8 ==> full[k] == prefix_zero()[k]);
        assert(forall|k: int| 8 <= k < nl ==> full[k] == d0[k - 8]);
        assert(forall|k: int| 0 <= k < nl ==> full[k] != '\n') by {
            assert(!contains_space(d0));
            assert(forall|k: int| 0 <= k < d0.len() ==> !is_space(d0[k]));
        }
        assert(full[nl] == '\n');
        lemma_line_split_first(full, nl);
        assert(full.take(nl) =~= prefix_zero() + d0);
        assert(full.skip(nl + 1) =~= rendered(ds.skip(1)));
        lemma_rendered_lines(ds.skip(1));
        let tail = Seq::new(ds.skip(1).len(), |i: int| prefix_zero() + ds.skip(1)[i]);
        assert(line_split(full) == seq![prefix_zero() + d0] + tail);
        assert(seq![prefix_zero() + d0] + tail =~= Seq::new(ds.len(), |i: int| prefix_zero() + ds[i]));
    }
}

/// The output file contains no duplicate domain lines: any two lines of
/// the rendered blocklist differ.
pub proof fn lemma_no_duplicate_lines(set: &DomainSet)
    requires
        set.wf(),
    ensures
        forall|i: int, j: int|
            0 <= i < j < line_split(rendered(set@)).len() ==> line_split(rendered(set@))[i]
                != line_split(rendered(set@))[j],
{
    lemma_rendered_lines(set@);
    let lines = line_split(rendered(set@));
    assert forall|i: int, j: int| 0 <= i < j < lines.len() implies lines[i] != lines[j] by {
        if lines[i] == lines[j] {
            assert((prefix_zero() + set@[i]).skip(8) =~= set@[i]);
            assert((prefix_zero() + set@[j]).skip(8) =~= set@[j]);
            assert(set@[i] == set@[j]);
        }
    }
}

/// Accumulating the rendered lines of fresh, pairwise-distinct canonical
/// domains appends exactly those domains to the accumulator.
proof fn lemma_accumulate_rendered(ds: Seq<Seq<char>>, acc: Seq<Seq<char>>)
    requires
        forall|i: int| 0 <= i < ds.len() ==> is_canonical_domain(ds[i]),
        distinct_domains(ds),
        forall|i: int| 0 <= i < ds.len() ==> !acc.contains(ds[i]),
    ensures
        accumulate_lines(Seq::new(ds.len(), |i: int| prefix_zero() + ds[i]), acc) == acc + ds,
    decreases ds.len(),
{
    let lines = Seq::new(ds.len(), |i: int| prefix_zero() + ds[i]);
    if ds.len() == 0 {
        assert(acc + ds =~= acc);
    } else {
        crate::extract::lemma_round_trip_line(ds[0]);
        assert(spec_extract(lines[0]) == Some(ds[0]));
        assert(!acc.contains(ds[0]));
        let acc2 = acc.push(ds[0]);
        assert(insert_domain(acc, ds[0]) == acc2);
        let rest = ds.skip(1);
        assert(forall|i: int| 0 <= i < rest.len() ==> !acc2.contains(rest[i])) by {
            assert forall|i: int| 0 <= i < rest.len() implies !acc2.contains(rest[i]) by {
                assert(rest[i] == ds[i + 1]);
                assert(ds[0] != ds[i + 1]);
                if acc2.contains(rest[i]) {
                    let k = choose|k: int| 0 <= k < acc2.len() && acc2[k] == rest[i];
                    if k < acc.len() {
                        assert(acc.contains(rest[i]));
                    } else {
                        assert(acc2[k] == ds[0]);
                    }
                }
            }
        }
        lemma_accumulate_rendered(rest, acc2);
        assert(lines.skip(1) =~= Seq::new(rest.len(), |i: int| prefix_zero() + rest[i]));
        assert(accumulate_lines(lines, acc) == accumulate_lines(lines.skip(1), acc2));
        assert(acc2 + rest =~= acc + ds);
    }
}

/// Round trip: feeding the rendered blocklist of a set of canonical
/// domains back through the extractor, line by line, rebuilds exactly
/// the same domains.
pub proof fn lemma_round_trip_file(set: &DomainSet)
    requires
        set.wf(),
        forall|i: int| 0 <= i < set@.len() ==> is_canonical_domain(set@[i]),
    ensures
        accumulate_lines(line_split(rendered(set@)), Seq::empty()) == set@,
{
    lemma_rendered_lines(set@);
    lemma_accumulate_rendered(set@, Seq::empty());
    assert(Seq::empty() + set@ =~= set@);
}

/// Selecting no category yields no categories to read, and the empty
/// domain set renders as an output file with zero domain lines.
pub proof fn lemma_empty_selection(sel: Selection)
    requires
        !sel.ads,
        !sel.trackers,
        !sel.malware,
        !sel.phishing,
        !sel.smart_tv,
        !sel.nsfw,
    ensures
        spec_selected(sel) == Seq::<crate::sources::Category>::empty(),
        rendered(Seq::empty()) == Seq::<char>::empty(),
        line_split(rendered(Seq::empty())) == Seq::<Seq<char>>::empty(),
{
    assert(spec_selected(sel) =~= Seq::<crate::sources::Category>::empty());
}

} // verus!
