//! Triage of mail threads by the package that a `suggested:<package>` tag
//! names.
use vstd::prelude::*;
use vstd::string::*;

verus! {

/// What a thread tag says about triage.
#[derive(Debug, PartialEq, Eq)]
pub enum TagKind {
    /// `suggested:<package>`: the thread belongs with that package.
    Suggestion(String),
    /// `suggested` with nothing after it.
    SuggestionMissing,
    /// Any other tag.
    Other,
}

/// True when `t` begins with `prefix`.
pub open spec fn has_prefix(t: Seq<char>, prefix: Seq<char>) -> bool {
    prefix.len() <= t.len() && t.take(prefix.len() as int) == prefix
}

/// True when `s` begins with `prefix`.
pub fn starts_with(s: &str, prefix: &str) -> (res: bool)
    ensures
        res == has_prefix(s@, prefix@),
{
    let n = s.unicode_len();
    let m = prefix.unicode_len();
    if m > n {
        return false;
    }
    let mut i: usize = 0;
    while i < m
        invariant
            n == s@.len(),
            m == prefix@.len(),
            m <= n,
            i <= m,
            forall|j: int| 0 <= j < i ==> s@[j] == prefix@[j],
        decreases m - i,
    {
        if s.get_char(i) != prefix.get_char(i) {
            assert(s@.take(m as int)[i as int] != prefix@[i as int]);
            return false;
        }
        i = i + 1;
    }
    assert(s@.take(m as int) =~= prefix@);
    true
}

/// Sorts a tag: `suggested:<package>` names a package (everything after the
/// first colon, which may itself hold colons or be empty), `suggested` alone
/// is a suggestion without a package, and every other tag is ignored.
pub fn classify_tag(tag: &str) -> (kind: TagKind)
    ensures
        match kind {
            TagKind::Suggestion(p) => has_prefix(tag@, "suggested:"@) && p@ == tag@.skip(
                "suggested:"@.len() as int,
            ),
            TagKind::SuggestionMissing => tag@ == "suggested"@,
            TagKind::Other => !has_prefix(tag@, "suggested:"@) && tag@ != "suggested"@,
        },
{
    let marker = "suggested:";
    let bare = "suggested";
    proof {
        reveal_strlit("suggested:");
        reveal_strlit("suggested");
    }
    if starts_with(tag, marker) {
        let n = tag.unicode_len();
        let package = tag.substring_char(10, n);
        TagKind::Suggestion(String::from_str(package))
    } else if tag.unicode_len() == 9 && starts_with(tag, bare) {
        assert(tag@ =~= tag@.take(9));
        TagKind::SuggestionMissing
    } else {
        proof {
            if tag@ == "suggested"@ {
                assert(tag@.take(9) =~= tag@);
            }
        }
        TagKind::Other
    }
}

/// Every tag made of `suggested:` and a package is read as that package.
pub proof fn lemma_suggestion_round_trip(package: Seq<char>)
    ensures
        has_prefix("suggested:"@ + package, "suggested:"@),
        ("suggested:"@ + package).skip("suggested:"@.len() as int) == package,
        "suggested:"@ + package != "suggested"@,
{
    let t = "suggested:"@ + package;
    assert(t.take("suggested:"@.len() as int) =~= "suggested:"@);
    assert(t.skip("suggested:"@.len() as int) =~= package);
    reveal_strlit("suggested:");
    reveal_strlit("suggested");
    assert(t.len() != "suggested"@.len());
}

/// The threads filed under `package` in `groups`, in filing order; empty when
/// no group has that package.
pub open spec fn threads_for(groups: Seq<(Seq<char>, Seq<usize>)>, package: Seq<char>) -> Seq<usize>
    decreases groups.len(),
{
    if groups.len() == 0 {
        seq![]
    } else if groups.last().0 == package {
        groups.last().1
    } else {
        threads_for(groups.drop_last(), package)
    }
}

/// No package names two groups.
pub open spec fn packages_distinct(groups: Seq<(Seq<char>, Seq<usize>)>) -> bool {
    forall|i: int, j: int| 0 <= i < j < groups.len() ==> groups[i].0 != groups[j].0
}

/// The position of the group for `package`, if there is one.
pub open spec fn group_index(groups: Seq<(Seq<char>, Seq<usize>)>, package: Seq<char>) -> Option<int> {
    if exists|i: int| 0 <= i < groups.len() && groups[i].0 == package {
        Some(choose|i: int| 0 <= i < groups.len() && groups[i].0 == package)
    } else {
        None
    }
}

/// The groups after filing `thread` under `package`: appended to that
/// package's group if it has one, else in a new group at the end.
pub open spec fn filed(groups: Seq<(Seq<char>, Seq<usize>)>, package: Seq<char>, thread: usize) -> Seq<
    (Seq<char>, Seq<usize>),
> {
    match group_index(groups, package) {
        Some(i) => groups.update(i, (package, groups[i].1.push(thread))),
        None => groups.push((package, seq![thread])),
    }
}

proof fn lemma_threads_for_group(groups: Seq<(Seq<char>, Seq<usize>)>, package: Seq<char>)
    requires
        packages_distinct(groups),
    ensures
        forall|i: int| 0 <= i < groups.len() && groups[i].0 == package ==> threads_for(groups, package) == groups[i].1,
        (forall|i: int| 0 <= i < groups.len() ==> groups[i].0 != package) ==> threads_for(groups, package) == Seq::<usize>::empty(),
    decreases groups.len(),
{
    if groups.len() > 0 {
        let rest = groups.drop_last();
        assert(packages_distinct(rest));
        lemma_threads_for_group(rest, package);
        assert forall|i: int| 0 <= i < groups.len() && groups[i].0 == package implies threads_for(groups, package) == groups[i].1 by {
            if i < groups.len() - 1 {
                assert(rest[i] == groups[i]);
                assert(groups.last().0 != package);
            }
        }
        if forall|i: int| 0 <= i < groups.len() ==> groups[i].0 != package {
            assert(groups[groups.len() - 1].0 != package);
            assert forall|i: int| 0 <= i < rest.len() implies rest[i].0 != package by {
                assert(rest[i] == groups[i]);
            }
        }
    }
}

/// Filing a thread under a package appends it to that package's threads and
/// leaves the threads of every other package as they were; no package ends up
/// with two groups.
pub proof fn lemma_filing_appends(groups: Seq<(Seq<char>, Seq<usize>)>, package: Seq<char>, thread: usize)
    requires
        packages_distinct(groups),
    ensures
        packages_distinct(filed(groups, package, thread)),
        threads_for(filed(groups, package, thread), package) == threads_for(groups, package).push(thread),
        forall|other: Seq<char>| other != package ==> threads_for(filed(groups, package, thread), other)
            == threads_for(groups, other),
{
    let after = filed(groups, package, thread);
    match group_index(groups, package) {
        Some(i) => {
            assert(0 <= i < groups.len() && groups[i].0 == package);
            assert(packages_distinct(after));
            lemma_threads_for_group(groups, package);
            lemma_threads_for_group(after, package);
            assert(after[i].0 == package);
            assert forall|other: Seq<char>| other != package implies threads_for(after, other) == threads_for(groups, other) by {
                lemma_threads_for_group(groups, other);
                lemma_threads_for_group(after, other);
                if exists|j: int| 0 <= j < groups.len() && groups[j].0 == other {
                    let j = choose|j: int| 0 <= j < groups.len() && groups[j].0 == other;
                    assert(after[j] == groups[j]);
                } else {
                    assert forall|j: int| 0 <= j < after.len() implies after[j].0 != other by {
                        if j != i {
                            assert(after[j] == groups[j]);
                        }
                    }
                }
            }
        },
        None => {
            assert(forall|j: int| 0 <= j < groups.len() ==> groups[j].0 != package);
            assert(after.drop_last() =~= groups);
            assert(packages_distinct(after));
            lemma_threads_for_group(groups, package);
            assert(threads_for(groups, package).push(thread) =~= seq![thread]);
            assert forall|other: Seq<char>| other != package implies threads_for(after, other) == threads_for(groups, other) by {
                assert(after.last().0 != other);
            }
        },
    }
}

/// Threads grouped by suggested package, packages in the order first seen.
pub struct SuggestionIndex {
    groups: Vec<(String, Vec<usize>)>,
}

impl View for SuggestionIndex {
    type V = Seq<(Seq<char>, Seq<usize>)>;

    closed spec fn view(&self) -> Seq<(Seq<char>, Seq<usize>)> {
        self.groups@.map_values(|g: (String, Vec<usize>)| (g.0@, g.1@))
    }
}

impl SuggestionIndex {
    #[verifier::type_invariant]
    closed spec fn well_formed(self) -> bool {
        packages_distinct(self@)
    }

    /// An index with no groups.
    pub fn new() -> (index: Self)
        ensures
            index@ == Seq::<(Seq<char>, Seq<usize>)>::empty(),
    {
        let index = SuggestionIndex { groups: Vec::new() };
        assert(index@ =~= Seq::<(Seq<char>, Seq<usize>)>::empty());
        index
    }

    /// The number of packages.
    pub fn len(&self) -> (n: usize)
        ensures
            n == self@.len(),
    {
        self.groups.len()
    }

    /// The package of the `i`-th group.
    pub fn package(&self, i: usize) -> (p: &String)
        requires
            i < self@.len(),
        ensures
            p@ == self@[i as int].0,
    {
        &self.groups[i].0
    }

    /// The threads of the `i`-th group, in filing order.
    pub fn threads(&self, i: usize) -> (t: &Vec<usize>)
        requires
            i < self@.len(),
        ensures
            t@ == self@[i as int].1,
    {
        &self.groups[i].1
    }

    /// Files `thread` under `package`.
    pub fn file(&mut self, package: &str, thread: usize)
        ensures
            final(self)@ == filed(old(self)@, package@, thread),
            packages_distinct(final(self)@),
    {
        proof {
            use_type_invariant(&*self);
        }
        let ghost old_view = self@;
        let mut groups: Vec<(String, Vec<usize>)> = Vec::new();
        std::mem::swap(&mut groups, &mut self.groups);
        let ghost start = groups@;
        assert(old_view == start.map_values(|g: (String, Vec<usize>)| (g.0@, g.1@)));
        let key = String::from_str(package);
        let n = groups.len();
        let mut i: usize = 0;
        let mut found = false;
        while i < n
            invariant_except_break
                !found,
            invariant
                n == groups@.len(),
                i <= n,
                key@ == package@,
                packages_distinct(old_view),
                old_view.len() == n,
                forall|j: int| 0 <= j < i ==> old_view[j].0 != package@,
                found ==> i < n && old_view[i as int].0 == package@,
                groups@ == start,
                old_view == start.map_values(|g: (String, Vec<usize>)| (g.0@, g.1@)),
            ensures
                found ==> i < n && old_view[i as int].0 == package@,
                !found ==> forall|j: int| 0 <= j < n ==> old_view[j].0 != package@,
                groups@ == start,
            decreases n - i,
        {
            if groups[i].0 == key {
                assert(old_view[i as int].0 == package@);
                found = true;
                break;
            }
            i = i + 1;
        }
        if found {
            assert(group_index(old_view, package@) == Some(i as int));
            groups[i].1.push(thread);
            assert(groups@.map_values(|g: (String, Vec<usize>)| (g.0@, g.1@)) =~= filed(old_view, package@, thread));
        } else {
            assert(group_index(old_view, package@) is None);
            let mut threads: Vec<usize> = Vec::new();
            threads.push(thread);
            groups.push((key, threads));
            assert(groups@.map_values(|g: (String, Vec<usize>)| (g.0@, g.1@)) =~= filed(old_view, package@, thread));
        }
        self.groups = groups;
    }

    /// Reads one tag of `thread` and files the thread when the tag suggests a
    /// package. Returns what the tag said.
    pub fn record_tag(&mut self, tag: &str, thread: usize) -> (kind: TagKind)
        ensures
            match kind {
                TagKind::Suggestion(p) => has_prefix(tag@, "suggested:"@) && p@ == tag@.skip(
                    "suggested:"@.len() as int,
                ) && final(self)@ == filed(old(self)@, p@, thread),
                TagKind::SuggestionMissing => tag@ == "suggested"@ && final(self)@ == old(self)@,
                TagKind::Other => !has_prefix(tag@, "suggested:"@) && tag@ != "suggested"@
                    && final(self)@ == old(self)@,
            },
    {
        let kind = classify_tag(tag);
        if let TagKind::Suggestion(p) = &kind {
            self.file(p.as_str(), thread);
        }
        kind
    }
}

} // verus!
