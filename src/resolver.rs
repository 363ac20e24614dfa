//! First-existing-path discovery over candidate lists, remembered once found.
use vstd::prelude::*;
use crate::source::AttributeSource;
use crate::text::same_text;

verus! {

/// The texts of a candidate list.
pub open spec fn list_view(c: Seq<&str>) -> Seq<Seq<char>> {
    c.map_values(|p: &str| p@)
}

pub open spec fn string_list_view(c: Seq<String>) -> Seq<Seq<char>> {
    c.map_values(|p: String| p@)
}

/// The model of a resolver: for each candidate list, the path found for it.
pub type PathModel = Map<Seq<Seq<char>>, Seq<char>>;

pub open spec fn found_model(s: Seq<(Vec<String>, String)>) -> PathModel
    decreases s.len(),
{
    if s.len() == 0 {
        Map::empty()
    } else {
        found_model(s.drop_last()).insert(string_list_view(s.last().0@), s.last().1@)
    }
}

pub open spec fn lists_unique(s: Seq<(Vec<String>, String)>) -> bool {
    forall|i: int, j: int|
        0 <= i < j < s.len() ==> string_list_view(s[i].0@) != string_list_view(s[j].0@)
}

proof fn lemma_found_index(s: Seq<(Vec<String>, String)>, i: int)
    requires
        lists_unique(s),
        0 <= i < s.len(),
    ensures
        found_model(s).contains_key(string_list_view(s[i].0@)),
        found_model(s)[string_list_view(s[i].0@)] == s[i].1@,
    decreases s.len(),
{
    if i < s.len() - 1 {
        lemma_found_index(s.drop_last(), i);
    }
}

proof fn lemma_found_absent(s: Seq<(Vec<String>, String)>, k: Seq<Seq<char>>)
    requires
        forall|i: int| 0 <= i < s.len() ==> string_list_view(s[i].0@) != k,
    ensures
        !found_model(s).contains_key(k),
    decreases s.len(),
{
    if s.len() > 0 {
        lemma_found_absent(s.drop_last(), k);
    }
}

/// The first candidate whose existence probe answered yes; `answers[i]`
/// is the answer for `cands[i]`, and candidates past the answers were not
/// probed.
pub open spec fn first_present(cands: Seq<Seq<char>>, answers: Seq<bool>) -> Option<Seq<char>>
    decreases answers.len(),
{
    if answers.len() == 0 || cands.len() == 0 {
        None
    } else if answers[0] {
        Some(cands[0])
    } else {
        first_present(cands.drop_first(), answers.drop_first())
    }
}

/// Picks the first candidate whose probe answered yes.
pub fn pick_first_present(cands: &[&str], answers: &Vec<bool>) -> (r: Option<String>)
    ensures
        text_of(r) == first_present(list_view(cands@), answers@),
{
    let mut i: usize = 0;
    assert(list_view(cands@).subrange(0, cands@.len() as int) =~= list_view(cands@));
    assert(answers@.subrange(0, answers@.len() as int) =~= answers@);
    while i < cands.len() && i < answers.len()
        invariant
            i <= cands@.len(),
            i <= answers@.len(),
            first_present(list_view(cands@), answers@) == first_present(
                list_view(cands@).subrange(i as int, cands@.len() as int),
                answers@.subrange(i as int, answers@.len() as int),
            ),
        decreases cands@.len() - i,
    {
        let ghost c = list_view(cands@).subrange(i as int, cands@.len() as int);
        let ghost a = answers@.subrange(i as int, answers@.len() as int);
        assert(c.drop_first() =~= list_view(cands@).subrange(i + 1, cands@.len() as int));
        assert(a.drop_first() =~= answers@.subrange(i + 1, answers@.len() as int));
        assert(c[0] == cands@[i as int]@);
        if answers[i] {
            return Some(String::from_str(cands[i]));
        }
        i = i + 1;
    }
    assert(list_view(cands@).subrange(i as int, cands@.len() as int).len() == 0
        || answers@.subrange(i as int, answers@.len() as int).len() == 0);
    None
}

pub open spec fn text_of(r: Option<String>) -> Option<Seq<char>> {
    match r {
        Some(s) => Some(s@),
        None => None,
    }
}

/// What one discovery does, given the probes' answers: a list already
/// resolved gives its path and changes nothing; otherwise the first
/// candidate that exists is returned and remembered, and a failure is not
/// remembered.
pub open spec fn discovered(
    old: PathModel,
    new: PathModel,
    key: Seq<Seq<char>>,
    answers: Seq<bool>,
    r: Option<Seq<char>>,
) -> bool {
    if old.contains_key(key) {
        r == Some(old[key]) && new == old
    } else {
        &&& r == first_present(key, answers)
        &&& match r {
            None => new == old,
            Some(p) => new == old.insert(key, p),
        }
    }
}

/// Paths found for candidate lists.
pub struct PathResolver {
    found: Vec<(Vec<String>, String)>,
}

impl View for PathResolver {
    type V = PathModel;

    closed spec fn view(&self) -> PathModel {
        found_model(self.found@)
    }
}

fn same_list(a: &Vec<String>, b: &[&str]) -> (r: bool)
    ensures
        r == (string_list_view(a@) == list_view(b@)),
{
    if a.len() != b.len() {
        assert(string_list_view(a@).len() != list_view(b@).len());
        return false;
    }
    let mut i: usize = 0;
    while i < a.len()
        invariant
            a@.len() == b@.len(),
            i <= a@.len(),
            forall|k: int| 0 <= k < i ==> a@[k]@ == b@[k]@,
        decreases a@.len() - i,
    {
        if !same_text(a[i].as_str(), b[i]) {
            assert(string_list_view(a@)[i as int] != list_view(b@)[i as int]);
            return false;
        }
        i = i + 1;
    }
    assert(string_list_view(a@) =~= list_view(b@));
    true
}

fn owned_list(b: &[&str]) -> (r: Vec<String>)
    ensures
        string_list_view(r@) == list_view(b@),
{
    let mut out: Vec<String> = Vec::new();
    let mut i: usize = 0;
    while i < b.len()
        invariant
            i <= b@.len(),
            out@.len() == i,
            forall|k: int| 0 <= k < i ==> #[trigger] out@[k]@ == b@[k]@,
        decreases b@.len() - i,
    {
        out.push(String::from_str(b[i]));
        i = i + 1;
    }
    assert(string_list_view(out@) =~= list_view(b@));
    out
}

impl PathResolver {
    pub closed spec fn wf(&self) -> bool {
        lists_unique(self.found@)
    }

    pub fn new() -> (r: PathResolver)
        ensures
            r.wf(),
            r@ == PathModel::empty(),
    {
        PathResolver { found: Vec::new() }
    }

    fn find(&self, candidates: &[&str]) -> (r: Option<usize>)
        requires
            self.wf(),
        ensures
            match r {
                Some(i) => i < self.found@.len() && string_list_view(self.found@[i as int].0@)
                    == list_view(candidates@),
                None => !self@.contains_key(list_view(candidates@)),
            },
    {
        let mut i: usize = 0;
        while i < self.found.len()
            invariant
                i <= self.found@.len(),
                forall|k: int|
                    0 <= k < i ==> string_list_view(self.found@[k].0@) != list_view(candidates@),
            decreases self.found@.len() - i,
        {
            if same_list(&self.found[i].0, candidates) {
                return Some(i);
            }
            i = i + 1;
        }
        proof {
            lemma_found_absent(self.found@, list_view(candidates@));
        }
        None
    }

    /// The first candidate that exists, remembered for the list once found;
    /// a list with no existing candidate is probed again next time.
    pub fn discover_first_valid<S: AttributeSource>(&mut self, src: &S, candidates: &[&str]) -> (r:
        Option<String>)
        requires
            old(self).wf(),
        ensures
            final(self).wf(),
            exists|answers: Seq<bool>|
                answers.len() <= candidates@.len() && discovered(
                    old(self)@,
                    final(self)@,
                    list_view(candidates@),
                    answers,
                    text_of(r),
                ),
    {
        match self.find(candidates) {
            Some(i) => {
                proof {
                    lemma_found_index(self.found@, i as int);
                }
                let r = Some(self.found[i].1.clone());
                assert(discovered(old(self)@, self@, list_view(candidates@), Seq::empty(), text_of(r)));
                return r;
            },
            None => {},
        }
        let mut answers: Vec<bool> = Vec::new();
        let mut i: usize = 0;
        let mut seen = false;
        while i < candidates.len() && !seen
            invariant
                i <= candidates@.len(),
                answers@.len() == i,
            decreases candidates@.len() - i,
        {
            seen = src.path_exists(candidates[i]);
            answers.push(seen);
            i = i + 1;
        }
        let found = pick_first_present(candidates, &answers);
        assert(answers@.len() <= candidates@.len());
        match found {
            Some(path) => {
                let list = owned_list(candidates);
                let ghost before = self.found@;
                proof {
                    assert forall|k: int| 0 <= k < before.len() implies string_list_view(
                        before[k].0@,
                    ) != list_view(candidates@) by {
                        if string_list_view(before[k].0@) == list_view(candidates@) {
                            lemma_found_index(before, k);
                        }
                    }
                }
                self.found.push((list, path.clone()));
                assert(self.found@.drop_last() =~= before);
                let r = Some(path);
                assert(discovered(old(self)@, self@, list_view(candidates@), answers@, text_of(r)));
                r
            },
            None => {
                assert(discovered(old(self)@, self@, list_view(candidates@), answers@, None));
                None
            },
        }
    }

    /// Forgets every path found.
    pub fn clear_path_cache(&mut self)
        ensures
            final(self).wf(),
            final(self)@ == PathModel::empty(),
    {
        self.found = Vec::new();
    }
}

} // verus!
