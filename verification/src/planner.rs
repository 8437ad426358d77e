//! The rename planner: the decision core of the tool. It models the
//! directory as the set of names currently present, classifies each entry
//! exactly once (skip, fatal, rename, or already named), derives the
//! canonical date-based name, resolves collisions with the smallest
//! disambiguator not held by another file — counted afresh for every
//! file — and counts the renames. A file that already bears the name the
//! run resolves for it is left in place and not counted, so a repeated
//! run changes nothing. The caller owns the actual filesystem calls and
//! feeds their plain results in.

use vstd::prelude::*;
use vstd::seq_lib::seq_to_set_is_finite;
use crate::dates::{civil_of, civil_from_secs, fmt_date, format_date};
use crate::digits::{dec_rep, push_dec, lemma_dec_rep_len, lemma_dec_rep_injective};
use crate::errors::Error;
use crate::naming::{allowed_ext, lower_seq, split_ext, split_name, match_allowed};

verus! {

/// One directory entry as the planner sees it: its name, whether it is a
/// regular file, and its creation time in whole seconds since the Unix
/// epoch (meaningful only for regular files).
pub struct EntryInfo {
    pub name: String,
    pub is_file: bool,
    pub created_secs: i64,
}

/// What became of one entry.
#[derive(Debug)]
pub enum Outcome {
    /// The entry is not a regular file; it was left alone.
    SkippedNotFile,
    /// The extension is not a recognized image type; the file was left
    /// alone.
    SkippedExtension,
    /// The file already bears the name this run resolves for it; it is
    /// left in place and not counted.
    AlreadyCanonical,
    /// The file is to be renamed from `old_name` to `new_name`.
    Renamed { old_name: String, new_name: String },
}

/// The `k`-th candidate name for a file: the date component, then a
/// `_k` disambiguator when `k > 0`, then the dot and the extension token.
pub open spec fn cand_name(date: Seq<char>, k: nat, ext: Seq<char>) -> Seq<char> {
    if k == 0 {
        date + seq!['.'] + ext
    } else {
        date + seq!['_'] + dec_rep(k) + seq!['.'] + ext
    }
}

/// Candidate names of one file are pairwise distinct: the disambiguator
/// can be read back out of the name.
pub proof fn lemma_cand_injective(date: Seq<char>, ext: Seq<char>, k1: nat, k2: nat)
    requires
        cand_name(date, k1, ext) == cand_name(date, k2, ext),
    ensures
        k1 == k2,
{
    lemma_dec_rep_len(k1);
    lemma_dec_rep_len(k2);
    let dl = date.len() as int;
    if k1 == 0 && k2 != 0 {
        assert(cand_name(date, k1, ext).len() == dl + 1 + ext.len());
        assert(cand_name(date, k2, ext).len() == dl + 1 + dec_rep(k2).len() + 1 + ext.len());
    } else if k1 != 0 && k2 == 0 {
        assert(cand_name(date, k1, ext).len() == dl + 1 + dec_rep(k1).len() + 1 + ext.len());
        assert(cand_name(date, k2, ext).len() == dl + 1 + ext.len());
    } else if k1 != 0 && k2 != 0 {
        let c1 = cand_name(date, k1, ext);
        let c2 = cand_name(date, k2, ext);
        let l1 = dec_rep(k1).len() as int;
        let l2 = dec_rep(k2).len() as int;
        assert(c1.len() == dl + 1 + l1 + 1 + ext.len());
        assert(c2.len() == dl + 1 + l2 + 1 + ext.len());
        assert(l1 == l2);
        assert(c1.subrange(dl + 1, dl + 1 + l1) =~= dec_rep(k1));
        assert(c2.subrange(dl + 1, dl + 1 + l2) =~= dec_rep(k2));
        lemma_dec_rep_injective(k1, k2);
    }
}

/// The planner's model of the run: the names currently present in the
/// directory and the number of files renamed so far.
pub struct Planner {
    names: Vec<String>,
    count: u64,
}

/// The date component a qualifying entry's creation time renders to.
pub open spec fn entry_date(e: EntryInfo) -> Seq<char> {
    match civil_of(e.created_secs as int) {
        Option::Some((y, m, d)) => fmt_date(y, m, d),
        Option::None => Seq::empty(),
    }
}

/// The lowercase extension token of a qualifying entry's name.
pub open spec fn entry_token(e: EntryInfo) -> Seq<char> {
    match split_ext(e.name@) {
        Option::Some(p) => lower_seq(p.1),
        Option::None => Seq::empty(),
    }
}

/// Whether `n` is held by a file other than the one currently named
/// `own`: the collision probe passes over the file's own name, so a file
/// never collides with itself.
pub open spec fn held_by_other(pre: Planner, own: Seq<char>, n: Seq<char>) -> bool {
    pre.has_name(n) && n != own
}

/// `k` is the resolved disambiguator for a file named `own`: every
/// earlier candidate is held by another file and the `k`-th is not.
pub open spec fn resolved_index(
    pre: Planner,
    own: Seq<char>,
    date: Seq<char>,
    tok: Seq<char>,
    k: nat,
) -> bool {
    &&& !held_by_other(pre, own, cand_name(date, k, tok))
    &&& forall|j: nat| j < k ==> held_by_other(pre, own, #[trigger] cand_name(date, j, tok))
}

/// What happens once the run has resolved `target` for the file named
/// `name`: a file that already bears the target keeps it, unrenamed and
/// uncounted; otherwise the file is renamed to the target — a name no
/// file holds — and counted.
pub open spec fn kept_or_renamed(
    pre: Planner,
    post: Planner,
    name: Seq<char>,
    target: Seq<char>,
    res: Result<Outcome, Error>,
) -> bool {
    if target == name {
        res == Ok::<Outcome, Error>(Outcome::AlreadyCanonical) && post == pre
    } else {
        match res {
            Result::Ok(Outcome::Renamed { old_name, new_name }) => {
                &&& old_name@ == name
                &&& new_name@ == target
                &&& !pre.has_name(target)
                &&& forall|n: Seq<char>|
                    #[trigger] post.has_name(n) <==> ((pre.has_name(n) && n != name) || n
                        == target)
                &&& post.count_spec() == pre.count_spec() + 1
            },
            _ => false,
        }
    }
}

/// The outcome for a qualifying file: its name moves to (or already is)
/// the candidate with the smallest disambiguator not held by another
/// file.
pub open spec fn resolved_case(
    pre: Planner,
    post: Planner,
    name: Seq<char>,
    date: Seq<char>,
    tok: Seq<char>,
    res: Result<Outcome, Error>,
) -> bool {
    exists|k: nat|
        #[trigger] resolved_index(pre, name, date, tok, k) && kept_or_renamed(
            pre,
            post,
            name,
            cand_name(date, k, tok),
            res,
        )
}

/// Everything `process_entry` decides, as one relation between the state
/// before, the state after, the entry, and the returned value. The cases
/// mirror the per-entry algorithm: a non-regular entry is skipped; a
/// creation time with no calendar date is fatal; a name with no extension
/// is fatal; an unrecognized extension is skipped; otherwise the file's
/// name is resolved against the other files' names.
pub open spec fn step_spec(
    pre: Planner,
    post: Planner,
    e: EntryInfo,
    res: Result<Outcome, Error>,
) -> bool {
    if !e.is_file {
        res == Ok::<Outcome, Error>(Outcome::SkippedNotFile) && post == pre
    } else {
        match civil_of(e.created_secs as int) {
            Option::None => res == Err::<Outcome, Error>(Error::MetadataError) && post == pre,
            Option::Some(ymd) => match split_ext(e.name@) {
                Option::None => res == Err::<Outcome, Error>(Error::NameExtractionError) && post
                    == pre,
                Option::Some(se) => if !allowed_ext(se.1) {
                    res == Ok::<Outcome, Error>(Outcome::SkippedExtension) && post == pre
                } else {
                    resolved_case(pre, post, e.name@, entry_date(e), entry_token(e), res)
                },
            },
        }
    }
}

impl Planner {
    /// The names in the modeled directory, in insertion order.
    pub closed spec fn names_seq(self) -> Seq<Seq<char>> {
        Seq::new(self.names@.len(), |i: int| self.names@[i]@)
    }

    /// How many files have been renamed so far.
    pub closed spec fn count_spec(self) -> u64 {
        self.count
    }

    /// Whether a name is currently present in the modeled directory.
    pub open spec fn has_name(self, n: Seq<char>) -> bool {
        exists|i: int| 0 <= i < self.names_seq().len() && self.names_seq()[i] == n
    }

    /// The model never holds a name twice: no two files share a name.
    pub open spec fn wf(self) -> bool {
        forall|i: int, j: int|
            0 <= i < j < self.names_seq().len() ==> self.names_seq()[i] != self.names_seq()[j]
    }

    /// Starts a run over a directory that currently holds `names`. A name
    /// listed twice is kept once: the model is the set of names.
    pub fn new(names: Vec<String>) -> (r: Planner)
        ensures
            r.wf(),
            r.count_spec() == 0,
            forall|n: Seq<char>|
                #[trigger] r.has_name(n) <==> (exists|i: int|
                    0 <= i < names@.len() && names@[i]@ == n),
    {
        let mut p = Planner { names: Vec::new(), count: 0 };
        let mut i: usize = 0;
        while i < names.len()
            invariant
                p.wf(),
                p.count == 0,
                i <= names@.len(),
                forall|n: Seq<char>|
                    #[trigger] p.has_name(n) <==> (exists|j: int|
                        0 <= j < i && names@[j]@ == n),
            decreases names@.len() - i,
        {
            let ghost pre = p;
            if !p.contains_name(&names[i]) {
                p.names.push(names[i].clone());
                proof {
                    assert(p.names_seq() =~= pre.names_seq().push(names@[i as int]@));
                    assert forall|n: Seq<char>| #[trigger] p.has_name(n) implies (exists|j: int|
                        0 <= j < i + 1 && names@[j]@ == n) by {
                        let w = choose|w: int|
                            0 <= w < p.names_seq().len() && p.names_seq()[w] == n;
                        if w < pre.names_seq().len() {
                            assert(pre.has_name(n));
                        } else {
                            assert(names@[i as int]@ == n);
                        }
                    }
                    assert forall|n: Seq<char>| (exists|j: int|
                        0 <= j < i + 1 && names@[j]@ == n) implies #[trigger] p.has_name(n) by {
                        let j = choose|j: int| 0 <= j < i + 1 && names@[j]@ == n;
                        if j < i {
                            assert(pre.has_name(n));
                            let w = choose|w: int|
                                0 <= w < pre.names_seq().len() && pre.names_seq()[w] == n;
                            assert(p.names_seq()[w] == n);
                        } else {
                            assert(p.names_seq()[p.names_seq().len() - 1] == n);
                        }
                    }
                }
            } else {
                proof {
                    assert forall|n: Seq<char>| (exists|j: int|
                        0 <= j < i + 1 && names@[j]@ == n) implies #[trigger] p.has_name(n) by {
                        let j = choose|j: int| 0 <= j < i + 1 && names@[j]@ == n;
                        if j == i {
                            assert(p.has_name(names@[i as int]@));
                        }
                    }
                }
            }
            i = i + 1;
        }
        p
    }

    /// Whether `name` is currently present in the modeled directory.
    pub fn contains_name(&self, name: &String) -> (r: bool)
        ensures
            r == self.has_name(name@),
    {
        let mut j: usize = 0;
        while j < self.names.len()
            invariant
                j <= self.names@.len(),
                forall|i: int| 0 <= i < j ==> self.names_seq()[i] != name@,
            decreases self.names@.len() - j,
        {
            if self.names[j] == *name {
                proof {
                    assert(self.names_seq()[j as int] == name@);
                }
                return true;
            }
            j = j + 1;
        }
        false
    }

    /// Whether `name` is held by a file other than the one named `own`.
    fn held_by_other_probe(&self, own: &String, name: &String) -> (r: bool)
        ensures
            r == held_by_other(*self, own@, name@),
    {
        if *name == *own {
            false
        } else {
            self.contains_name(name)
        }
    }

    /// How many files have been renamed so far in this run.
    pub fn count(&self) -> (r: u64)
        ensures
            r == self.count_spec(),
    {
        self.count
    }

    /// Takes `target` out of the modeled directory; without it the model
    /// would still hold the file's old name after its rename.
    fn remove_first(&mut self, target: &String)
        requires
            old(self).wf(),
        ensures
            final(self).wf(),
            final(self).count_spec() == old(self).count_spec(),
            forall|n: Seq<char>|
                #[trigger] final(self).has_name(n) <==> (old(self).has_name(n) && n != target@),
    {
        let mut i: usize = 0;
        while i < self.names.len()
            invariant
                *self == *old(self),
                self.wf(),
                i <= self.names@.len(),
                forall|j: int| 0 <= j < i ==> self.names_seq()[j] != target@,
            decreases self.names@.len() - i,
        {
            if self.names[i] == *target {
                let ghost pre = *self;
                self.names.remove(i);
                proof {
                    assert(pre.names_seq()[i as int] == target@);
                    assert(self.names_seq() =~= pre.names_seq().remove(i as int));
                    assert forall|n: Seq<char>| #[trigger] self.has_name(n) implies (pre.has_name(
                        n,
                    ) && n != target@) by {
                        let w = choose|w: int|
                            0 <= w < self.names_seq().len() && self.names_seq()[w] == n;
                        if w < i {
                            assert(pre.names_seq()[w] == n);
                            assert(pre.names_seq()[w] != target@);
                        } else {
                            assert(pre.names_seq()[w + 1] == n);
                            assert(pre.names_seq()[w + 1] != pre.names_seq()[i as int]);
                        }
                    }
                    assert forall|n: Seq<char>| (pre.has_name(n) && n != target@) implies #[trigger] self
                        .has_name(n) by {
                        let w = choose|w: int|
                            0 <= w < pre.names_seq().len() && pre.names_seq()[w] == n;
                        if w < i {
                            assert(self.names_seq()[w] == n);
                        } else {
                            assert(w != i);
                            assert(self.names_seq()[w - 1] == n);
                        }
                    }
                    assert forall|a: int, b: int|
                        0 <= a < b < self.names_seq().len() implies self.names_seq()[a] != self
                        .names_seq()[b] by {
                        let pa: int = if a < i {
                            a
                        } else {
                            a + 1
                        };
                        let pb: int = if b < i {
                            b
                        } else {
                            b + 1
                        };
                        assert(self.names_seq()[a] == pre.names_seq()[pa]);
                        assert(self.names_seq()[b] == pre.names_seq()[pb]);
                    }
                }
                return;
            }
            i = i + 1;
        }
    }

    /// Processes one directory entry, as [`step_spec`] says: it decides
    /// skip, fatal error, rename, or already-named. On a rename the
    /// modeled directory moves from the old name to the resolved
    /// candidate — never a name another file holds — and the rename is
    /// counted; a file already bearing the resolved candidate stays
    /// exactly as it is.
    pub fn process_entry(&mut self, e: &EntryInfo) -> (res: Result<Outcome, Error>)
        requires
            old(self).wf(),
            old(self).count_spec() < u64::MAX,
        ensures
            final(self).wf(),
            step_spec(*old(self), *final(self), *e, res),
    {
        if !e.is_file {
            return Ok(Outcome::SkippedNotFile);
        }
        let (y, m, d) = match civil_from_secs(e.created_secs) {
            Option::None => { return Err(Error::MetadataError) },
            Option::Some(t) => t,
        };
        let (stem, ext) = match split_name(e.name.as_str()) {
            Option::None => { return Err(Error::NameExtractionError) },
            Option::Some(p) => p,
        };
        let tok = match match_allowed(ext) {
            Option::None => { return Ok(Outcome::SkippedExtension) },
            Option::Some(t) => t,
        };
        let date = format_date(y, m, d);
        let ghost gdate = fmt_date(y as int, m as int, d as int);
        let ghost gtok = lower_seq(ext@);
        proof {
            assert(gdate == entry_date(*e));
            assert(gtok == entry_token(*e));
        }
        let cap = self.names.len();
        let mut k: usize = 0;
        let mut cand = build_candidate(&date, 0, tok);
        while self.held_by_other_probe(&e.name, &cand)
            invariant
                *self == *old(self),
                self.wf(),
                old(self).count_spec() < u64::MAX,
                cap == self.names_seq().len(),
                cand@ == cand_name(gdate, k as nat, gtok),
                date@ == gdate,
                tok@ == gtok,
                forall|j: nat|
                    j < k ==> held_by_other(*self, e.name@, #[trigger] cand_name(gdate, j, gtok)),
                k <= cap,
            decreases cap - k,
        {
            proof {
                assert forall|j: nat| j <= k implies self.has_name(
                    #[trigger] cand_name(gdate, j, gtok),
                ) by {
                    if j < k {
                        assert(held_by_other(*self, e.name@, cand_name(gdate, j, gtok)));
                    }
                }
                lemma_probe_bound(*self, gdate, gtok, k as nat);
            }
            k = k + 1;
            cand = build_candidate(&date, k, tok);
        }
        proof {
            assert(resolved_index(*old(self), e.name@, gdate, gtok, k as nat));
        }
        if cand == e.name {
            let res: Result<Outcome, Error> = Ok(Outcome::AlreadyCanonical);
            proof {
                assert(cand_name(gdate, k as nat, gtok) == e.name@);
                assert(kept_or_renamed(
                    *old(self),
                    *self,
                    e.name@,
                    cand_name(gdate, k as nat, gtok),
                    res,
                ));
                assert(resolved_case(*old(self), *self, e.name@, gdate, gtok, res));
                assert(step_spec(*old(self), *self, *e, res));
            }
            return res;
        }
        let new_name = cand;
        proof {
            assert(new_name@ == cand_name(gdate, k as nat, gtok));
            assert(new_name@ != e.name@);
            assert(!old(self).has_name(new_name@));
        }
        let old_name = e.name.clone();
        self.remove_first(&e.name);
        let ghost mid = *self;
        self.names.push(new_name.clone());
        self.count = self.count + 1;
        proof {
            assert(self.names_seq() =~= mid.names_seq().push(new_name@));
            assert forall|n: Seq<char>| #[trigger] self.has_name(n) implies ((old(self).has_name(n)
                && n != e.name@) || n == new_name@) by {
                let w = choose|w: int| 0 <= w < self.names_seq().len() && self.names_seq()[w] == n;
                if w < mid.names_seq().len() {
                    assert(mid.has_name(n));
                }
            }
            assert forall|n: Seq<char>| ((old(self).has_name(n) && n != e.name@) || n == new_name@)
                implies #[trigger] self.has_name(n) by {
                if old(self).has_name(n) && n != e.name@ {
                    assert(mid.has_name(n));
                    let w = choose|w: int|
                        0 <= w < mid.names_seq().len() && mid.names_seq()[w] == n;
                    assert(self.names_seq()[w] == n);
                } else {
                    assert(self.names_seq()[self.names_seq().len() - 1] == n);
                }
            }
            assert(!mid.has_name(new_name@));
            assert forall|i: int, j: int|
                0 <= i < j < self.names_seq().len() implies self.names_seq()[i] != self
                .names_seq()[j] by {
                if j == self.names_seq().len() - 1 {
                    assert(self.names_seq()[i] == mid.names_seq()[i]);
                    assert(mid.has_name(mid.names_seq()[i]));
                    assert(self.names_seq()[j] == new_name@);
                } else {
                    assert(self.names_seq()[i] == mid.names_seq()[i]);
                    assert(self.names_seq()[j] == mid.names_seq()[j]);
                }
            }
        }
        let res: Result<Outcome, Error> = Ok(Outcome::Renamed { old_name, new_name });
        proof {
            assert(civil_of(e.created_secs as int) == Some((y as int, m as int, d as int)));
            assert(split_ext(e.name@) == Some((stem@, ext@)));
            assert(allowed_ext(ext@));
            assert(kept_or_renamed(
                *old(self),
                *self,
                e.name@,
                cand_name(gdate, k as nat, gtok),
                res,
            ));
            assert(resolved_case(*old(self), *self, e.name@, gdate, gtok, res));
            assert(step_spec(*old(self), *self, *e, res));
        }
        res
    }
}

/// Whether a processed entry is one the run resolves a canonical name
/// for: a regular file whose creation time has a calendar date and whose
/// name carries a recognized image extension.
pub open spec fn entry_qualifies(e: EntryInfo) -> bool {
    &&& e.is_file
    &&& civil_of(e.created_secs as int) is Some
    &&& match split_ext(e.name@) {
        Option::Some(p) => allowed_ext(p.1),
        Option::None => false,
    }
}

/// Whether a result reports a rename.
pub open spec fn is_renamed(res: Result<Outcome, Error>) -> bool {
    match res {
        Result::Ok(Outcome::Renamed { .. }) => true,
        _ => false,
    }
}

/// Whether a result reports a file already bearing its resolved name.
pub open spec fn is_kept(res: Result<Outcome, Error>) -> bool {
    res == Ok::<Outcome, Error>(Outcome::AlreadyCanonical)
}

/// An entry that does not qualify — not a regular file, an unrecognized
/// or missing extension, or a creation time with no calendar date —
/// leaves the directory exactly as it was: same names, same count, no
/// rename.
pub proof fn lemma_unqualified_entry_unchanged(
    pre: Planner,
    post: Planner,
    e: EntryInfo,
    res: Result<Outcome, Error>,
)
    requires
        step_spec(pre, post, e, res),
        !entry_qualifies(e),
    ensures
        post == pre,
        !is_renamed(res),
        !is_kept(res),
{
}

/// Every qualifying entry is either renamed — and counted exactly once —
/// or found already bearing its resolved name and left untouched; nothing
/// else moves the count. In particular the final count is exactly the
/// number of qualifying entries the run actually renamed.
pub proof fn lemma_qualified_entry_resolved(
    pre: Planner,
    post: Planner,
    e: EntryInfo,
    res: Result<Outcome, Error>,
)
    requires
        step_spec(pre, post, e, res),
        entry_qualifies(e),
    ensures
        is_renamed(res) || is_kept(res),
        is_renamed(res) ==> post.count_spec() == pre.count_spec() + 1,
        is_kept(res) ==> post == pre,
{
    let k = choose|k: nat|
        #[trigger] resolved_index(pre, e.name@, entry_date(e), entry_token(e), k)
            && kept_or_renamed(
            pre,
            post,
            e.name@,
            cand_name(entry_date(e), k, entry_token(e)),
            res,
        );
    if cand_name(entry_date(e), k, entry_token(e)) == e.name@ {
        assert(is_kept(res));
    } else {
        assert(is_renamed(res));
    }
}

/// A file that already bears the canonical date name for its own creation
/// time keeps it: its first candidate is its own name, which the probe
/// passes over, so the file is left unrenamed and uncounted — whatever
/// else the directory holds. An immediately repeated run therefore
/// renames zero additional files.
pub proof fn lemma_canonical_file_stable(
    pre: Planner,
    post: Planner,
    e: EntryInfo,
    res: Result<Outcome, Error>,
)
    requires
        step_spec(pre, post, e, res),
        entry_qualifies(e),
        e.name@ == cand_name(entry_date(e), 0, entry_token(e)),
    ensures
        is_kept(res),
        post == pre,
{
    let k = choose|k: nat|
        #[trigger] resolved_index(pre, e.name@, entry_date(e), entry_token(e), k)
            && kept_or_renamed(
            pre,
            post,
            e.name@,
            cand_name(entry_date(e), k, entry_token(e)),
            res,
        );
    if k > 0 {
        assert(held_by_other(pre, e.name@, cand_name(entry_date(e), 0, entry_token(e))));
    }
}

/// A rename never lands on an existing name, and afterwards the
/// directory holds the new name, no longer holds the old one, and holds
/// everything else it held before: no file is overwritten and none is
/// lost.
pub proof fn lemma_rename_moves_one_name(
    pre: Planner,
    post: Planner,
    e: EntryInfo,
    res: Result<Outcome, Error>,
    old_name: String,
    new_name: String,
)
    requires
        step_spec(pre, post, e, res),
        res == Ok::<Outcome, Error>(Outcome::Renamed { old_name, new_name }),
    ensures
        old_name@ == e.name@,
        new_name@ != e.name@,
        !pre.has_name(new_name@),
        post.has_name(new_name@),
        !post.has_name(e.name@),
        forall|n: Seq<char>|
            #[trigger] post.has_name(n) <==> ((pre.has_name(n) && n != e.name@) || n
                == new_name@),
{
    let k = choose|k: nat|
        #[trigger] resolved_index(pre, e.name@, entry_date(e), entry_token(e), k)
            && kept_or_renamed(
            pre,
            post,
            e.name@,
            cand_name(entry_date(e), k, entry_token(e)),
            res,
        );
    assert(cand_name(entry_date(e), k, entry_token(e)) != e.name@);
}

/// The three-way collision scenario, in general: a directory holding
/// exactly three distinct files, all qualifying with the same date and
/// extension token, and none already bearing a candidate name, ends —
/// whatever the enumeration order was — with exactly the canonical name
/// and the `_1` and `_2` variants, three renames counted.
pub proof fn lemma_three_tied_files_disambiguated(
    p0: Planner,
    p1: Planner,
    p2: Planner,
    p3: Planner,
    e1: EntryInfo,
    e2: EntryInfo,
    e3: EntryInfo,
    r1: Result<Outcome, Error>,
    r2: Result<Outcome, Error>,
    r3: Result<Outcome, Error>,
    date: Seq<char>,
    tok: Seq<char>,
)
    requires
        step_spec(p0, p1, e1, r1),
        step_spec(p1, p2, e2, r2),
        step_spec(p2, p3, e3, r3),
        entry_qualifies(e1) && entry_date(e1) == date && entry_token(e1) == tok,
        entry_qualifies(e2) && entry_date(e2) == date && entry_token(e2) == tok,
        entry_qualifies(e3) && entry_date(e3) == date && entry_token(e3) == tok,
        forall|n: Seq<char>|
            #[trigger] p0.has_name(n) <==> (n == e1.name@ || n == e2.name@ || n == e3.name@),
        e1.name@ != e2.name@ && e1.name@ != e3.name@ && e2.name@ != e3.name@,
        forall|j: nat| j < 3 ==> e1.name@ != #[trigger] cand_name(date, j, tok),
        forall|j: nat| j < 3 ==> e2.name@ != #[trigger] cand_name(date, j, tok),
        forall|j: nat| j < 3 ==> e3.name@ != #[trigger] cand_name(date, j, tok),
    ensures
        is_renamed(r1) && is_renamed(r2) && is_renamed(r3),
        p3.count_spec() == p0.count_spec() + 3,
        forall|n: Seq<char>|
            #[trigger] p3.has_name(n) <==> (n == cand_name(date, 0, tok) || n == cand_name(
                date,
                1,
                tok,
            ) || n == cand_name(date, 2, tok)),
{
    let c0 = cand_name(date, 0, tok);
    let c1 = cand_name(date, 1, tok);
    let c2 = cand_name(date, 2, tok);
    assert(c0 != c1) by {
        if c0 == c1 {
            lemma_cand_injective(date, tok, 0, 1);
        }
    }
    assert(c0 != c2) by {
        if c0 == c2 {
            lemma_cand_injective(date, tok, 0, 2);
        }
    }
    assert(c1 != c2) by {
        if c1 == c2 {
            lemma_cand_injective(date, tok, 1, 2);
        }
    }
    // First file: every candidate slot is free of other files, so it
    // takes the plain date name.
    assert(resolved_case(p0, p1, e1.name@, date, tok, r1));
    let k1 = choose|k: nat|
        #[trigger] resolved_index(p0, e1.name@, date, tok, k) && kept_or_renamed(
            p0,
            p1,
            e1.name@,
            cand_name(date, k, tok),
            r1,
        );
    if k1 != 0 {
        assert(held_by_other(p0, e1.name@, cand_name(date, 0, tok)));
        assert(false);
    }
    assert(kept_or_renamed(p0, p1, e1.name@, c0, r1));
    assert(c0 != e1.name@);
    assert(is_renamed(r1));
    assert forall|n: Seq<char>| #[trigger] p1.has_name(n) <==> (n == e2.name@ || n == e3.name@
        || n == c0) by {
        assert(p1.has_name(n) <==> ((p0.has_name(n) && n != e1.name@) || n == c0));
    }
    assert(p1.count_spec() == p0.count_spec() + 1);
    // Second file: the date name is now held by the first, the `_1`
    // variant is free of others.
    assert(resolved_case(p1, p2, e2.name@, date, tok, r2));
    let k2 = choose|k: nat|
        #[trigger] resolved_index(p1, e2.name@, date, tok, k) && kept_or_renamed(
            p1,
            p2,
            e2.name@,
            cand_name(date, k, tok),
            r2,
        );
    assert(held_by_other(p1, e2.name@, c0));
    assert(!held_by_other(p1, e2.name@, c1));
    if k2 == 0 {
        assert(false);
    }
    if k2 > 1 {
        assert(held_by_other(p1, e2.name@, cand_name(date, 1, tok)));
        assert(false);
    }
    assert(kept_or_renamed(p1, p2, e2.name@, c1, r2));
    assert(c1 != e2.name@);
    assert(is_renamed(r2));
    assert forall|n: Seq<char>| #[trigger] p2.has_name(n) <==> (n == e3.name@ || n == c0 || n
        == c1) by {
        assert(p2.has_name(n) <==> ((p1.has_name(n) && n != e2.name@) || n == c1));
    }
    assert(p2.count_spec() == p1.count_spec() + 1);
    // Third file: both earlier variants are held by others, the `_2`
    // variant is free.
    assert(resolved_case(p2, p3, e3.name@, date, tok, r3));
    let k3 = choose|k: nat|
        #[trigger] resolved_index(p2, e3.name@, date, tok, k) && kept_or_renamed(
            p2,
            p3,
            e3.name@,
            cand_name(date, k, tok),
            r3,
        );
    assert(held_by_other(p2, e3.name@, c0));
    assert(held_by_other(p2, e3.name@, c1));
    assert(!held_by_other(p2, e3.name@, c2));
    if k3 == 0 || k3 == 1 {
        assert(false);
    }
    if k3 > 2 {
        assert(held_by_other(p2, e3.name@, cand_name(date, 2, tok)));
        assert(false);
    }
    assert(kept_or_renamed(p2, p3, e3.name@, c2, r3));
    assert(c2 != e3.name@);
    assert(is_renamed(r3));
    assert forall|n: Seq<char>| #[trigger] p3.has_name(n) <==> (n == c0 || n == c1 || n == c2) by {
        assert(p3.has_name(n) <==> ((p2.has_name(n) && n != e3.name@) || n == c2));
    }
    assert(p3.count_spec() == p2.count_spec() + 1);
}

/// While every candidate up to and including `k` is a name the directory
/// holds, `k` stays below the number of names: the candidates are
/// pairwise distinct, so they cannot outnumber the names they are among.
proof fn lemma_probe_bound(p: Planner, date: Seq<char>, tok: Seq<char>, k: nat)
    requires
        forall|j: nat| j <= k ==> p.has_name(#[trigger] cand_name(date, j, tok)),
    ensures
        k < p.names_seq().len(),
{
    broadcast use seq_to_set_is_finite;

    let tried = Seq::new(k + 1, |j: int| cand_name(date, j as nat, tok));
    assert forall|i: int, j: int| 0 <= i < j < tried.len() implies tried[i] != tried[j] by {
        if tried[i] == tried[j] {
            lemma_cand_injective(date, tok, i as nat, j as nat);
        }
    }
    assert(tried.no_duplicates());
    tried.unique_seq_to_set();
    assert forall|n: Seq<char>| #[trigger] tried.to_set().contains(n) implies p.names_seq().to_set()
        .contains(n) by {
        let j = choose|j: int| 0 <= j < tried.len() && tried[j] == n;
        assert(p.has_name(cand_name(date, j as nat, tok)));
        let w = choose|w: int| 0 <= w < p.names_seq().len() && p.names_seq()[w] == n;
        assert(p.names_seq().to_set().contains(p.names_seq()[w]));
    }
    assert(tried.to_set() <= p.names_seq().to_set());
    vstd::set_lib::lemma_len_subset(tried.to_set(), p.names_seq().to_set());
    p.names_seq().lemma_cardinality_of_set();
}

/// Builds the `k`-th candidate name, as [`cand_name`] spells it.
fn build_candidate(date: &str, k: usize, tok: &str) -> (r: String)
    ensures
        r@ == cand_name(date@, k as nat, tok@),
{
    let mut s = String::new();
    s.append(date);
    if k > 0 {
        s.append("_");
        push_dec(&mut s, k as u64);
    }
    s.append(".");
    s.append(tok);
    proof {
        reveal_strlit("_");
        reveal_strlit(".");
        assert("_"@ =~= seq!['_']);
        assert("."@ =~= seq!['.']);
        assert(s@ =~= cand_name(date@, k as nat, tok@));
    }
    s
}

/// The per-file success line: the old name, then the new one.
pub fn success_message(old_name: &str, new_name: &str) -> (r: String)
    ensures
        r@ == old_name@ + " renamed by "@ + new_name@,
{
    let mut s = String::new();
    s.append(old_name);
    s.append(" renamed by ");
    s.append(new_name);
    proof {
        assert(s@ =~= old_name@ + " renamed by "@ + new_name@);
    }
    s
}

/// The final summary line with the total count of renamed files.
pub fn summary_message(count: u64) -> (r: String)
    ensures
        r@ == "Total renamed images: "@ + dec_rep(count as nat),
{
    let mut s = String::new();
    s.append("Total renamed images: ");
    push_dec(&mut s, count);
    s
}

} // verus!
