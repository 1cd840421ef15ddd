//! Cloning confirmed repositories into the recovery area, one at a time, each
//! under an identifier that no earlier clone of the run holds.

use vstd::prelude::*;
use crate::texts;
use crate::error::PipelineError;
use crate::validate::ToolOutput;

verus! {

/// A repository cloned into the recovery area: where it came from and the
/// identifier it was cloned under.
#[derive(Clone, Debug)]
pub struct RecoveredRepository {
    pub source: String,
    pub name: String,
}

/// The state of one recovery pass over the confirmed repositories, in order.
/// The caller asks for the next source, draws an identifier and claims it,
/// clones, and reports the clone's outcome.
#[derive(Debug)]
pub struct Recovery {
    confirmed: Vec<String>,
    recovered: Vec<RecoveredRepository>,
    claimed: Option<String>,
}

/// The identifiers held by a sequence of recovered repositories.
pub open spec fn names_of(rs: Seq<RecoveredRepository>) -> Seq<Seq<char>> {
    rs.map_values(|r: RecoveredRepository| r.name@)
}

/// The sources of a sequence of recovered repositories.
pub open spec fn sources_of(rs: Seq<RecoveredRepository>) -> Seq<Seq<char>> {
    rs.map_values(|r: RecoveredRepository| r.source@)
}

impl Recovery {
    /// The confirmed repositories, in the order they are recovered.
    pub closed spec fn confirmed_spec(&self) -> Seq<Seq<char>> {
        texts(self.confirmed@)
    }

    /// The repositories recovered so far.
    pub closed spec fn recovered_spec(&self) -> Seq<RecoveredRepository> {
        self.recovered@
    }

    /// The identifier claimed for the clone under way, if any.
    pub closed spec fn claimed_spec(&self) -> Option<Seq<char>> {
        match self.claimed {
            Some(n) => Some(n@),
            None => None,
        }
    }

    /// The pass recovers the confirmed repositories in order, one clone each,
    /// under identifiers that are pairwise distinct; a claimed identifier is
    /// held by no recovered repository.
    pub open spec fn wf(&self) -> bool {
        &&& self.recovered_spec().len() <= self.confirmed_spec().len()
        &&& sources_of(self.recovered_spec()) == self.confirmed_spec().take(self.recovered_spec().len() as int)
        &&& names_of(self.recovered_spec()).no_duplicates()
        &&& self.claimed_spec() is Some ==> {
            &&& self.recovered_spec().len() < self.confirmed_spec().len()
            &&& !names_of(self.recovered_spec()).contains(self.claimed_spec()->Some_0)
        }
    }

    /// Every confirmed repository has been recovered.
    pub open spec fn is_complete(&self) -> bool {
        self.recovered_spec().len() == self.confirmed_spec().len()
    }

    /// Starts a pass over `confirmed`, with nothing recovered yet.
    pub fn new(confirmed: Vec<String>) -> (r: Recovery)
        ensures
            r.wf(),
            r.confirmed_spec() == texts(confirmed@),
            r.recovered_spec().len() == 0,
            r.claimed_spec() is None,
    {
        let r = Recovery { confirmed, recovered: Vec::new(), claimed: None };
        assert(sources_of(r.recovered@) =~= r.confirmed_spec().take(0));
        assert(names_of(r.recovered@) =~= Seq::<Seq<char>>::empty());
        r
    }

    /// The repository to recover next, or `None` when all are recovered.
    pub fn next_source(&self) -> (r: Option<String>)
        requires
            self.wf(),
        ensures
            r is None <==> self.is_complete(),
            r is Some ==> r->Some_0@ == self.confirmed_spec()[self.recovered_spec().len() as int],
    {
        if self.recovered.len() < self.confirmed.len() {
            Some(self.confirmed[self.recovered.len()].clone())
        } else {
            None
        }
    }

    fn holds_name(&self, name: &String) -> (r: bool)
        ensures
            r == names_of(self.recovered@).contains(name@),
    {
        let mut i: usize = 0;
        while i < self.recovered.len()
            invariant
                0 <= i <= self.recovered.len(),
                forall|k: int| 0 <= k < i ==> names_of(self.recovered@)[k] != name@,
            decreases self.recovered.len() - i,
        {
            if self.recovered[i].name == *name {
                assert(names_of(self.recovered@)[i as int] == name@);
                return true;
            }
            i = i + 1;
        }
        false
    }

    /// Claims `name` for the next clone, whose destination `dest` exists already
    /// or not as `dest_exists` says. An identifier whose destination exists, or
    /// that an earlier clone of this pass holds, is a collision: the pass stops
    /// there rather than overwrite anything.
    pub fn claim(&mut self, name: String, dest: String, dest_exists: bool) -> (r: Result<(), PipelineError>)
        requires
            old(self).wf(),
            !old(self).is_complete(),
            old(self).claimed_spec() is None,
        ensures
            final(self).wf(),
            final(self).confirmed_spec() == old(self).confirmed_spec(),
            final(self).recovered_spec() == old(self).recovered_spec(),
            r is Err <==> dest_exists || names_of(old(self).recovered_spec()).contains(name@),
            r is Err ==> r == Err::<(), PipelineError>(PipelineError::Collision { path: dest }),
            r is Err ==> final(self).claimed_spec() is None,
            r is Ok ==> final(self).claimed_spec() == Some(name@),
    {
        if dest_exists {
            return Err(PipelineError::Collision { path: dest });
        }
        if self.holds_name(&name) {
            return Err(PipelineError::Collision { path: dest });
        }
        self.claimed = Some(name);
        Ok(())
    }

    /// Reports how the clone under the claimed identifier went. On success the
    /// repository is recovered under that identifier; otherwise the pass stops
    /// with the tool's diagnostics (its error output, or why it could not run).
    /// Either way the claim is spent.
    pub fn record_clone(&mut self, outcome: &Result<ToolOutput, String>) -> (r: Result<(), PipelineError>)
        requires
            old(self).wf(),
            old(self).claimed_spec() is Some,
        ensures
            final(self).wf(),
            final(self).confirmed_spec() == old(self).confirmed_spec(),
            final(self).claimed_spec() is None,
            r is Ok <==> outcome is Ok && outcome->Ok_0.success,
            r is Ok ==> final(self).recovered_spec().len() == old(self).recovered_spec().len() + 1,
            r is Ok ==> final(self).recovered_spec().last().name@ == old(self).claimed_spec()->Some_0,
            r is Ok ==> final(self).recovered_spec().drop_last() == old(self).recovered_spec(),
            r is Err ==> final(self).recovered_spec() == old(self).recovered_spec(),
            r is Err ==> r->Err_0 is Clone
                && r->Err_0->Clone_path@ == old(self).confirmed_spec()[old(self).recovered_spec().len() as int]
                && r->Err_0->Clone_diagnostics == (if outcome is Err { outcome->Err_0 } else { outcome->Ok_0.stderr }),
    {
        let name = self.claimed.take().unwrap();
        let source = self.confirmed[self.recovered.len()].clone();
        match outcome {
            Err(e) => Err(PipelineError::Clone { path: source, diagnostics: e.clone() }),
            Ok(o) => {
                if !o.success {
                    return Err(PipelineError::Clone { path: source, diagnostics: o.stderr.clone() });
                }
                let ghost before = self.recovered@;
                let ghost n = name@;
                self.recovered.push(RecoveredRepository { source, name });
                proof {
                    assert(names_of(self.recovered@) =~= names_of(before).push(n));
                    assert(sources_of(self.recovered@) =~= sources_of(before).push(self.confirmed_spec()[before.len() as int]));
                    assert(self.confirmed_spec().take(self.recovered@.len() as int) =~= self.confirmed_spec().take(before.len() as int).push(self.confirmed_spec()[before.len() as int]));
                    assert(self.recovered@.drop_last() =~= before);
                }
                Ok(())
            },
        }
    }

    /// The repositories recovered so far, in order.
    pub fn recovered(&self) -> (r: &Vec<RecoveredRepository>)
        ensures
            r@ == self.recovered_spec(),
    {
        &self.recovered
    }
}

/// Checks the recovery area before a pass: a path that exists but is no
/// directory stops the run; otherwise the result says whether the area has to
/// be created.
pub fn prepare_recovery_area(path: &String, exists: bool, is_dir: bool) -> (r: Result<bool, PipelineError>)
    ensures
        r is Err <==> exists && !is_dir,
        r is Err ==> r->Err_0 is Access && r->Err_0->Access_path == *path,
        r is Ok ==> r->Ok_0 == !exists,
{
    if exists {
        if is_dir {
            Ok(false)
        } else {
            Err(PipelineError::Access { path: path.clone(), detail: "exists and is not a directory".to_owned() })
        }
    } else {
        Ok(true)
    }
}

/// A finished pass has recovered every confirmed repository exactly once, in
/// order, and no two of the clones share an identifier.
pub proof fn lemma_complete_recovery_is_one_to_one(run: Recovery)
    requires
        run.wf(),
        run.is_complete(),
    ensures
        run.recovered_spec().len() == run.confirmed_spec().len(),
        sources_of(run.recovered_spec()) == run.confirmed_spec(),
        names_of(run.recovered_spec()).no_duplicates(),
{
    assert(run.confirmed_spec().take(run.recovered_spec().len() as int) =~= run.confirmed_spec());
}

} // verus!
