//! Blocklist verdict sources: a list loaded from file contents (tagged as
//! blacklist or whitelist), a fixed verdict, an accept-everything dummy, and
//! an ordered composition where the first source with an opinion wins.

use vstd::prelude::*;
use crate::name::Name;
use crate::text::{eq_ignore_ascii_case, lower, split_lines, spec_lines};

verus! {

broadcast use vstd::string::is_ascii_spec_bytes, crate::name::lemma_name_deep_view;

/// Mathematical form of a verdict.
pub enum ActionModel {
    Allow,
    Deny(Seq<char>),
    NoVerdict,
}

/// A verdict over a set of queried names.
#[derive(Debug, Clone)]
pub enum BlocklistAction {
    /// Explicit pass (a whitelist matched).
    Allow,
    /// Explicit block; carries the matched list entry.
    Deny(String),
    /// No opinion; the caller decides the default policy.
    NoVerdict,
}

impl View for BlocklistAction {
    type V = ActionModel;

    open spec fn view(&self) -> ActionModel {
        match self {
            BlocklistAction::Allow => ActionModel::Allow,
            BlocklistAction::Deny(s) => ActionModel::Deny(s@),
            BlocklistAction::NoVerdict => ActionModel::NoVerdict,
        }
    }
}

impl PartialEq for BlocklistAction {
    fn eq(&self, other: &BlocklistAction) -> (r: bool) {
        match (self, other) {
            (BlocklistAction::Allow, BlocklistAction::Allow) => true,
            (BlocklistAction::NoVerdict, BlocklistAction::NoVerdict) => true,
            (BlocklistAction::Deny(a), BlocklistAction::Deny(b)) => {
                let r: bool = a.eq(b);
                proof {
                    assert(r == (a@ == b@));
                    assert((self@ == other@) == (a@ == b@));
                }
                r
            },
            _ => false,
        }
    }
}

impl Eq for BlocklistAction {

}

impl vstd::std_specs::cmp::PartialEqSpecImpl for BlocklistAction {
    open spec fn obeys_eq_spec() -> bool {
        true
    }

    open spec fn eq_spec(&self, other: &BlocklistAction) -> bool {
        self@ == other@
    }
}

impl BlocklistAction {
    /// A copy whose verdict is the same.
    pub fn duplicate(&self) -> (r: BlocklistAction)
        ensures
            r@ == self@,
    {
        match self {
            BlocklistAction::Allow => BlocklistAction::Allow,
            BlocklistAction::Deny(s) => BlocklistAction::Deny(s.clone()),
            BlocklistAction::NoVerdict => BlocklistAction::NoVerdict,
        }
    }

    /// Whether this verdict is a denial.
    pub fn is_deny(&self) -> (r: bool)
        ensures
            r == (self@ is Deny),
    {
        match self {
            BlocklistAction::Deny(_) => true,
            _ => false,
        }
    }

    /// Whether this verdict is an opinion at all.
    pub fn is_verdict(&self) -> (r: bool)
        ensures
            r == !(self@ is NoVerdict),
    {
        match self {
            BlocklistAction::NoVerdict => false,
            _ => true,
        }
    }
}

/// Whether a list file is consulted as a whitelist or a blacklist.
#[derive(Debug, Clone, Copy, PartialEq, Eq, Structural)]
pub enum ListType {
    Whitelist,
    Blacklist,
}

/// A name (fully qualified, so with its trailing dot) matches a list line
/// when, after dropping the dot, the two are equal up to ASCII case.
pub open spec fn name_matches_line(name: Seq<char>, line: Seq<char>) -> bool {
    lower(name.take(name.len() - 1)) == lower(line)
}

/// Whether any of the names matches the line.
pub open spec fn any_name_matches(names: Seq<Seq<char>>, line: Seq<char>) -> bool {
    exists|j: int| 0 <= j < names.len() && name_matches_line(#[trigger] names[j], line)
}

/// The first list line matched by any of the names, scanning in file order.
pub open spec fn find_hit(lines: Seq<Seq<char>>, names: Seq<Seq<char>>) -> Option<Seq<char>>
    decreases lines.len(),
{
    if lines.len() == 0 {
        Option::None
    } else if any_name_matches(names, lines.first()) {
        Option::Some(lines.first())
    } else {
        find_hit(lines.drop_first(), names)
    }
}

/// The verdict of one list over a set of names.
pub open spec fn list_verdict(lines: Seq<Seq<char>>, list_type: ListType, names: Seq<Seq<char>>) -> ActionModel {
    match find_hit(lines, names) {
        Option::Some(line) => match list_type {
            ListType::Blacklist => ActionModel::Deny(line),
            ListType::Whitelist => ActionModel::Allow,
        },
        Option::None => ActionModel::NoVerdict,
    }
}

/// A verdict source backed by the lines of a newline-delimited list file.
/// Each line is one literal name pattern; matching is case-insensitive and
/// exact, with no wildcard syntax.  The lines are captured when the list is
/// built; an edit to the underlying file takes effect when the list is next
/// rebuilt, as replacing a session's lists does.
#[derive(Debug)]
pub struct FileList {
    lines: Vec<String>,
    list_type: ListType,
}

impl FileList {
    /// The lines this list matches against.
    pub closed spec fn spec_lines(&self) -> Seq<Seq<char>> {
        self.lines.deep_view()
    }

    /// Whether this list is a whitelist or a blacklist.
    pub closed spec fn spec_list_type(&self) -> ListType {
        self.list_type
    }

    /// Builds a list from the text contents of a list file.
    pub fn new(contents: &str, list_type: ListType) -> (r: FileList)
        ensures
            r.spec_lines() == spec_lines(contents@),
            r.spec_list_type() == list_type,
    {
        FileList { lines: split_lines(contents), list_type }
    }

    /// Builds a list directly from its lines.
    pub fn from_lines(lines: Vec<String>, list_type: ListType) -> (r: FileList)
        ensures
            r.spec_lines() == lines.deep_view(),
            r.spec_list_type() == list_type,
    {
        FileList { lines, list_type }
    }

    /// Evaluates the names against the list: the first line equal (up to
    /// ASCII case) to one of the names decides; a blacklist denies with the
    /// matched line, a whitelist allows; no match is no verdict.
    pub fn next_action(&self, names: &Vec<Name>) -> (r: BlocklistAction)
        requires
            forall|j: int| 0 <= j < names@.len() ==> #[trigger] names@[j].wf(),
        ensures
            r@ == list_verdict(self.spec_lines(), self.spec_list_type(), names.deep_view()),
    {
        // strip the trailing root dot from each name once
        let mut stripped: Vec<String> = Vec::new();
        let mut i: usize = 0;
        while i < names.len()
            invariant
                forall|j: int| 0 <= j < names@.len() ==> #[trigger] names@[j].wf(),
                i <= names@.len(),
                stripped.deep_view().len() == i as int,
                forall|j: int|
                    0 <= j < i ==> #[trigger] stripped.deep_view()[j] == names.deep_view()[j].take(
                        names.deep_view()[j].len() - 1,
                    ),
                forall|j: int|
                    0 <= j < i ==> vstd::utf8::is_ascii_chars(#[trigger] stripped.deep_view()[j]),
            decreases names@.len() - i,
        {
            let name = &names[i];
            let s = name.as_str();
            proof {
                assert(names@[i as int].wf());
                crate::name::lemma_fqdn_ascii(name@);
                assert(vstd::string::is_ascii(s));
            }
            let len = s.len();
            proof {
                assert(len as int == s@.len());
                assert(s@.len() >= 1);
            }
            let part = s.substring_ascii(0, len - 1);
            let ghost dv0 = stripped.deep_view();
            stripped.push(part.to_owned());
            proof {
                assert(stripped.deep_view() =~= dv0.push(part@));
                assert(names.deep_view()[i as int] == names@[i as int]@);
                assert(stripped.deep_view()[i as int] == part@);
            }
            i += 1;
        }
        let ghost names_dv = names.deep_view();
        proof {
            assert(self.spec_lines().skip(0) =~= self.spec_lines());
        }
        let mut li: usize = 0;
        while li < self.lines.len()
            invariant
                names_dv == names.deep_view(),
                stripped.deep_view().len() == names_dv.len(),
                forall|j: int|
                    0 <= j < names_dv.len() ==> #[trigger] stripped.deep_view()[j]
                        == names_dv[j].take(names_dv[j].len() - 1),
                forall|j: int|
                    0 <= j < names_dv.len() ==> vstd::utf8::is_ascii_chars(
                        #[trigger] stripped.deep_view()[j],
                    ),
                li <= self.lines@.len(),
                find_hit(self.spec_lines().skip(li as int), names_dv) == find_hit(
                    self.spec_lines(),
                    names_dv,
                ),
                forall|k: int|
                    0 <= k < li ==> !any_name_matches(names_dv, #[trigger] self.spec_lines()[k]),
            decreases self.lines@.len() - li,
        {
            let line = &self.lines[li];
            let mut nj: usize = 0;
            let mut matched = false;
            while nj < stripped.len()
                invariant
                    names_dv.len() == stripped.deep_view().len(),
                    forall|j: int|
                        0 <= j < names_dv.len() ==> #[trigger] stripped.deep_view()[j]
                            == names_dv[j].take(names_dv[j].len() - 1),
                    forall|j: int|
                        0 <= j < names_dv.len() ==> vstd::utf8::is_ascii_chars(
                            #[trigger] stripped.deep_view()[j],
                        ),
                    nj <= names_dv.len(),
                    0 <= li < self.lines@.len(),
                    line@ == self.spec_lines()[li as int],
                    matched ==> any_name_matches(names_dv, self.spec_lines()[li as int]),
                    !matched ==> forall|j: int|
                        0 <= j < nj ==> !name_matches_line(
                            #[trigger] names_dv[j],
                            self.spec_lines()[li as int],
                        ),
                decreases names_dv.len() - nj,
            {
                if !matched {
                    proof {
                        assert(stripped.deep_view()[nj as int] == stripped@[nj as int]@);
                    }
                    let hit = eq_ignore_ascii_case(stripped[nj].as_str(), line.as_str());
                    if hit {
                        matched = true;
                        proof {
                            assert(name_matches_line(names_dv[nj as int], line@));
                        }
                    }
                }
                nj += 1;
            }
            if matched {
                proof {
                    let rest = self.spec_lines().skip(li as int);
                    assert(rest.first() == self.spec_lines()[li as int]);
                }
                let hit_line = line.clone();
                return match self.list_type {
                    ListType::Blacklist => BlocklistAction::Deny(hit_line),
                    ListType::Whitelist => BlocklistAction::Allow,
                };
            }
            proof {
                let rest = self.spec_lines().skip(li as int);
                assert(rest.first() == self.spec_lines()[li as int]);
                assert(rest.drop_first() =~= self.spec_lines().skip(li + 1));
            }
            li += 1;
        }
        proof {
            assert(self.spec_lines().skip(li as int) =~= Seq::<Seq<char>>::empty());
        }
        BlocklistAction::NoVerdict
    }
}

/// A source that accepts everything.
#[derive(Debug)]
pub struct AcceptAllDummy {}

impl AcceptAllDummy {
    /// Always allows.
    pub fn next_action(&self, _names: &Vec<Name>) -> (r: BlocklistAction)
        ensures
            r@ is Allow,
    {
        BlocklistAction::Allow
    }
}

/// One verdict source of a composed policy.
#[derive(Debug)]
pub enum PolicySource {
    /// A list loaded from a file's contents.
    List(FileList),
    /// A fixed verdict, independent of the names.
    Fixed(BlocklistAction),
    /// The accept-everything dummy.
    AcceptAll(AcceptAllDummy),
}

/// The verdict of one source.
pub open spec fn source_verdict(s: PolicySource, names: Seq<Seq<char>>) -> ActionModel {
    match s {
        PolicySource::List(l) => list_verdict(l.spec_lines(), l.spec_list_type(), names),
        PolicySource::Fixed(a) => a@,
        PolicySource::AcceptAll(_) => ActionModel::Allow,
    }
}

/// The verdict of an ordered run of sources: the first one with an opinion
/// wins; if none has one, there is no verdict.
pub open spec fn sources_verdict(ss: Seq<PolicySource>, names: Seq<Seq<char>>) -> ActionModel
    decreases ss.len(),
{
    if ss.len() == 0 {
        ActionModel::NoVerdict
    } else if !(source_verdict(ss.first(), names) is NoVerdict) {
        source_verdict(ss.first(), names)
    } else {
        sources_verdict(ss.drop_first(), names)
    }
}

/// An ordered composition of verdict sources with a first-opinion-wins rule.
#[derive(Debug)]
pub struct Policy {
    sources: Vec<PolicySource>,
}

impl Policy {
    /// The composed sources, in evaluation order.
    pub closed spec fn spec_sources(&self) -> Seq<PolicySource> {
        self.sources@
    }

    /// The policy's verdict over a set of names.
    pub open spec fn spec_verdict(&self, names: Seq<Seq<char>>) -> ActionModel {
        sources_verdict(self.spec_sources(), names)
    }

    /// Composes sources; they are evaluated in the order given.
    pub fn new(sources: Vec<PolicySource>) -> (r: Policy)
        ensures
            r.spec_sources() == sources@,
    {
        Policy { sources }
    }

    /// Evaluates the sources in order; the first verdict wins.
    pub fn next_action(&self, names: &Vec<Name>) -> (r: BlocklistAction)
        requires
            forall|j: int| 0 <= j < names@.len() ==> #[trigger] names@[j].wf(),
        ensures
            r@ == self.spec_verdict(names.deep_view()),
    {
        let mut i: usize = 0;
        proof {
            assert(self.spec_sources().skip(0) =~= self.spec_sources());
        }
        while i < self.sources.len()
            invariant
                forall|j: int| 0 <= j < names@.len() ==> #[trigger] names@[j].wf(),
                i <= self.sources@.len(),
                sources_verdict(self.spec_sources().skip(i as int), names.deep_view())
                    == self.spec_verdict(names.deep_view()),
            decreases self.sources@.len() - i,
        {
            proof {
                let rest = self.spec_sources().skip(i as int);
                assert(rest.first() == self.spec_sources()[i as int]);
                assert(rest.drop_first() =~= self.spec_sources().skip(i + 1));
            }
            let action = match &self.sources[i] {
                PolicySource::List(l) => l.next_action(names),
                PolicySource::Fixed(a) => a.duplicate(),
                PolicySource::AcceptAll(d) => d.next_action(names),
            };
            if action.is_verdict() {
                return action;
            }
            i += 1;
        }
        proof {
            assert(self.spec_sources().skip(i as int) =~= Seq::<PolicySource>::empty());
        }
        BlocklistAction::NoVerdict
    }
}

/// A line matched by one of the names makes the scan find a hit, and every
/// hit is a line matched by one of the names.
pub proof fn lemma_find_hit_some(lines: Seq<Seq<char>>, names: Seq<Seq<char>>, k: int)
    requires
        0 <= k < lines.len(),
        any_name_matches(names, lines[k]),
    ensures
        find_hit(lines, names) is Some,
        any_name_matches(names, find_hit(lines, names)->0),
    decreases lines.len(),
{
    if !any_name_matches(names, lines.first()) {
        assert(lines.drop_first()[k - 1] == lines[k]);
        lemma_find_hit_some(lines.drop_first(), names, k - 1);
    }
}

/// When no line is matched by any name, the scan finds nothing.
pub proof fn lemma_find_hit_none(lines: Seq<Seq<char>>, names: Seq<Seq<char>>)
    requires
        forall|k: int| 0 <= k < lines.len() ==> !any_name_matches(names, #[trigger] lines[k]),
    ensures
        find_hit(lines, names) is None,
    decreases lines.len(),
{
    if lines.len() > 0 {
        assert(lines[0] == lines.first());
        assert forall|k: int|
            0 <= k < lines.drop_first().len() implies !any_name_matches(
            names,
            #[trigger] lines.drop_first()[k],
        ) by {
            assert(lines.drop_first()[k] == lines[k + 1]);
        }
        lemma_find_hit_none(lines.drop_first(), names);
    }
}

/// A name standing verbatim on a blacklist is denied: evaluating a name set
/// that holds it yields a denial whose matched entry is, up to ASCII case,
/// the stripped form of some queried name.
pub proof fn lemma_blacklist_verbatim(l: FileList, names: Seq<Seq<char>>, k: int, j: int)
    requires
        l.spec_list_type() == ListType::Blacklist,
        0 <= k < l.spec_lines().len(),
        0 <= j < names.len(),
        l.spec_lines()[k] == names[j].take(names[j].len() - 1),
    ensures
        list_verdict(l.spec_lines(), l.spec_list_type(), names) matches ActionModel::Deny(m)
            && any_name_matches(names, m),
{
    assert(name_matches_line(names[j], l.spec_lines()[k]));
    assert(any_name_matches(names, l.spec_lines()[k]));
    lemma_find_hit_some(l.spec_lines(), names, k);
}

/// A name that matches no line of a list draws no verdict from it.
pub proof fn lemma_unlisted_no_verdict(l: FileList, names: Seq<Seq<char>>)
    requires
        forall|k: int|
            0 <= k < l.spec_lines().len() ==> !any_name_matches(names, #[trigger] l.spec_lines()[k]),
    ensures
        list_verdict(l.spec_lines(), l.spec_list_type(), names) is NoVerdict,
{
    lemma_find_hit_none(l.spec_lines(), names);
}

/// Whitelist precedence: when the first source of a composed policy is a
/// whitelist one of whose lines matches a queried name, the policy allows —
/// whatever the sources after it (in particular a blacklist that also lists
/// the name) would say.
pub proof fn lemma_whitelist_precedence(
    p: Policy,
    names: Seq<Seq<char>>,
    w: FileList,
    k: int,
    j: int,
)
    requires
        p.spec_sources().len() >= 1,
        p.spec_sources()[0] == PolicySource::List(w),
        w.spec_list_type() == ListType::Whitelist,
        0 <= k < w.spec_lines().len(),
        0 <= j < names.len(),
        name_matches_line(names[j], w.spec_lines()[k]),
    ensures
        p.spec_verdict(names) is Allow,
{
    assert(any_name_matches(names, w.spec_lines()[k]));
    lemma_find_hit_some(w.spec_lines(), names, k);
    assert(p.spec_sources().first() == PolicySource::List(w));
    assert(source_verdict(p.spec_sources().first(), names) is Allow);
}

} // verus!
