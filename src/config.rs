//! The declared link set: named links, their expansion, and the errors of
//! loading a configuration.
use vstd::prelude::*;
use crate::expansion::{brace_expansion, brace_free, expand, law_plain_pattern, numeric_flags, views, BraceExpansionError};

verus! {

/// The logical name (or alias) of a port.
#[derive(Debug, Clone, PartialEq, Eq, Hash, PartialOrd)]
pub struct PortName(pub String);

impl View for PortName {
    type V = Seq<char>;

    open spec fn view(&self) -> Seq<char> {
        self.0@
    }
}

impl PortName {
    /// A copy of the name.
    pub fn copied(&self) -> (r: PortName)
        ensures
            r@ == self@,
    {
        PortName(self.0.clone())
    }
}

/// One declared connection, from the output port `src` to the input port
/// `dst`; before expansion both are patterns.
#[derive(Debug, Clone)]
pub struct NamedLink {
    pub src: PortName,
    pub dst: PortName,
}

impl View for NamedLink {
    type V = (Seq<char>, Seq<char>);

    open spec fn view(&self) -> (Seq<char>, Seq<char>) {
        (self.src@, self.dst@)
    }
}

/// A list of declared connections, in order.
#[derive(Debug, Clone)]
pub struct NamedLinks(pub Vec<NamedLink>);

impl View for NamedLinks {
    type V = Seq<(Seq<char>, Seq<char>)>;

    open spec fn view(&self) -> Seq<(Seq<char>, Seq<char>)> {
        link_views(self.0@)
    }
}

/// The views of a sequence of links.
pub open spec fn link_views(v: Seq<NamedLink>) -> Seq<(Seq<char>, Seq<char>)> {
    v.map_values(|l: NamedLink| l@)
}

/// The configuration document: the links to keep in place.
#[derive(Debug)]
pub struct Config {
    pub links: NamedLinks,
}

impl Default for Config {
    fn default() -> (r: Config)
        ensures
            r.links@.len() == 0,
    {
        Config { links: NamedLinks(Vec::new()) }
    }
}

/// A configuration document that could not be read, with where it came from.
#[derive(Debug)]
pub struct ParseError {
    pub filename: String,
    pub message: String,
}

impl ParseError {
    /// The error as one line of text.
    pub fn describe(&self) -> (r: String)
        ensures
            r@ == "Failed to parse "@ + self.filename@ + ": "@ + self.message@,
    {
        let r = String::from_str("Failed to parse ");
        let r = r.concat(self.filename.as_str());
        let r = r.concat(": ");
        r.concat(self.message.as_str())
    }
}

/// Why a configuration was refused.
#[derive(Debug)]
pub enum Error {
    ParseError(ParseError),
    BraceExpansionError(BraceExpansionError),
}

impl Error {
    /// The error as one line of text.
    pub fn describe(&self) -> (r: String)
        ensures
            r@ == match self {
                Error::ParseError(e) => "Failed to parse "@ + e.filename@ + ": "@ + e.message@,
                Error::BraceExpansionError(e) => "Failed to perform brace expansion to "@ + e.str@ + ": "@ + e.message@,
            },
    {
        match self {
            Error::ParseError(e) => e.describe(),
            Error::BraceExpansionError(e) => e.describe(),
        }
    }
}

/// The reason given for a declared link whose patterns expand to
/// different numbers of strings.
pub open spec fn msg_count_mismatch() -> Seq<char> {
    "Number of expansions need to match"@
}

/// The expansion of a pattern as `brace_expansion` gives it.
pub open spec fn expand_pattern(p: Seq<char>) -> Result<Seq<Seq<char>>, Seq<char>> {
    expand(p, numeric_flags(p))
}

/// The concrete links that the declared link `(src, dst)` stands for: the
/// i-th expansion of `src` with the i-th expansion of `dst`. An error is the
/// pattern concerned and the reason.
pub open spec fn expand_pair(src: Seq<char>, dst: Seq<char>) -> Result<Seq<(Seq<char>, Seq<char>)>, (Seq<char>, Seq<char>)> {
    match expand_pattern(src) {
        Err(m) => Err((src, m)),
        Ok(s) => match expand_pattern(dst) {
            Err(m) => Err((dst, m)),
            Ok(d) => if s.len() != d.len() {
                Err((src + " and "@ + dst, msg_count_mismatch()))
            } else {
                Ok(Seq::new(s.len(), |k: int| (s[k], d[k])))
            },
        },
    }
}

/// The expansion of every declared link, concatenated in order; the first
/// failure stops it.
pub open spec fn expand_all(links: Seq<(Seq<char>, Seq<char>)>) -> Result<Seq<(Seq<char>, Seq<char>)>, (Seq<char>, Seq<char>)>
    decreases links.len(),
{
    if links.len() == 0 {
        Ok(Seq::empty())
    } else {
        match expand_all(links.drop_last()) {
            Err(e) => Err(e),
            Ok(acc) => match expand_pair(links.last().0, links.last().1) {
                Err(e) => Err(e),
                Ok(ps) => Ok(acc + ps),
            },
        }
    }
}

/// Expands every declared link into concrete links, keeping their order.
pub fn expand_links(links: NamedLinks) -> (r: Result<NamedLinks, Error>)
    ensures
        match r {
            Ok(l) => expand_all(links@) == Ok::<_, (Seq<char>, Seq<char>)>(l@),
            Err(Error::BraceExpansionError(e)) => expand_all(links@) == Err::<Seq<(Seq<char>, Seq<char>)>, _>((e.str@, e.message@)),
            Err(Error::ParseError(_)) => false,
        },
{
    let mut out: Vec<NamedLink> = Vec::new();
    let mut i: usize = 0;
    assert(links@.subrange(0, 0) =~= Seq::<(Seq<char>, Seq<char>)>::empty());
    assert(link_views(out@) =~= Seq::<(Seq<char>, Seq<char>)>::empty());
    while i < links.0.len()
        invariant
            i <= links@.len(),
            links@.len() == links.0@.len(),
            expand_all(links@.subrange(0, i as int)) == Ok::<_, (Seq<char>, Seq<char>)>(link_views(out@)),
        decreases links@.len() - i,
    {
        proof {
            lemma_prefix_failure(links@, i as int + 1);
        }
        let link = &links.0[i];
        assert(links@.subrange(0, i as int + 1).drop_last() =~= links@.subrange(0, i as int));
        assert(links@[i as int] == link@);
        let src = match brace_expansion(link.src.0.as_str()) {
            Ok(v) => v,
            Err(e) => {
                return Err(Error::BraceExpansionError(e));
            },
        };
        let dst = match brace_expansion(link.dst.0.as_str()) {
            Ok(v) => v,
            Err(e) => {
                return Err(Error::BraceExpansionError(e));
            },
        };
        if src.len() != dst.len() {
            let both = link.src.0.clone().concat(" and ").concat(link.dst.0.as_str());
            return Err(Error::BraceExpansionError(BraceExpansionError {
                str: both,
                message: String::from_str("Number of expansions need to match"),
            }));
        }
        let ghost acc = link_views(out@);
        let ghost pairs = Seq::new(views(src@).len(), |k: int| (views(src@)[k], views(dst@)[k]));
        let mut j: usize = 0;
        while j < src.len()
            invariant
                j <= src@.len() == dst@.len(),
                pairs.len() == src@.len(),
                pairs == Seq::new(views(src@).len(), |k: int| (views(src@)[k], views(dst@)[k])),
                link_views(out@) == acc + pairs.subrange(0, j as int),
            decreases src@.len() - j,
        {
            let l = NamedLink { src: PortName(src[j].clone()), dst: PortName(dst[j].clone()) };
            assert(l@ == pairs[j as int]);
            let ghost before = link_views(out@);
            out.push(l);
            assert(link_views(out@) =~= before.push(l@));
            j = j + 1;
            assert(link_views(out@) =~= acc + pairs.subrange(0, j as int));
        }
        assert(pairs.subrange(0, j as int) =~= pairs);
        i = i + 1;
    }
    assert(links@.subrange(0, i as int) =~= links@);
    Ok(NamedLinks(out))
}

proof fn lemma_prefix_failure(links: Seq<(Seq<char>, Seq<char>)>, i: int)
    requires
        0 <= i <= links.len(),
    ensures
        expand_all(links.subrange(0, i)) is Err ==> expand_all(links) == expand_all(links.subrange(0, i)),
    decreases links.len(),
{
    if i < links.len() {
        assert(links.drop_last().subrange(0, i) =~= links.subrange(0, i));
        lemma_prefix_failure(links.drop_last(), i);
    } else {
        assert(links.subrange(0, i) =~= links);
    }
}

/// A declared link is accepted only when both of its patterns expand to
/// the same number of strings; otherwise it is refused with an error that
/// names both patterns.
pub proof fn law_matching_counts(src: Seq<char>, dst: Seq<char>)
    ensures
        expand_pair(src, dst) is Ok ==> {
            &&& expand_pattern(src) is Ok
            &&& expand_pattern(dst) is Ok
            &&& expand_pattern(src)->Ok_0.len() == expand_pattern(dst)->Ok_0.len()
        },
        expand_pattern(src) is Ok && expand_pattern(dst) is Ok
            && expand_pattern(src)->Ok_0.len() != expand_pattern(dst)->Ok_0.len()
            ==> expand_pair(src, dst) == Err::<Seq<(Seq<char>, Seq<char>)>, _>((src + " and "@ + dst, msg_count_mismatch())),
{
}

/// Every link of an accepted link set has patterns of equal counts.
pub proof fn law_accepted_set_matches(links: Seq<(Seq<char>, Seq<char>)>, i: int)
    requires
        expand_all(links) is Ok,
        0 <= i < links.len(),
    ensures
        expand_pair(links[i].0, links[i].1) is Ok,
    decreases links.len(),
{
    if i < links.len() - 1 {
        law_accepted_set_matches(links.drop_last(), i);
    }
}

/// A link set whose names hold no braces expands to itself.
pub proof fn law_plain_links(links: Seq<(Seq<char>, Seq<char>)>)
    requires
        forall|i: int| 0 <= i < links.len() ==> brace_free(#[trigger] links[i].0) && brace_free(links[i].1),
    ensures
        expand_all(links) == Ok::<_, (Seq<char>, Seq<char>)>(links),
    decreases links.len(),
{
    if links.len() > 0 {
        let l = links.last();
        assert(brace_free(links[links.len() - 1].0));
        law_plain_links(links.drop_last());
        law_plain_pattern(l.0, numeric_flags(l.0));
        law_plain_pattern(l.1, numeric_flags(l.1));
        let s = expand_pattern(l.0)->Ok_0;
        let d = expand_pattern(l.1)->Ok_0;
        assert(Seq::new(s.len(), |k: int| (s[k], d[k])) =~= seq![l]);
        assert(expand_pair(l.0, l.1) == Ok::<_, (Seq<char>, Seq<char>)>(seq![l]));
        assert(links.drop_last() + seq![l] =~= links);
    } else {
        assert(links =~= Seq::<(Seq<char>, Seq<char>)>::empty());
    }
}

} // verus!
