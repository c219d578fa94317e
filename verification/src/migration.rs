use crate::error::{SaveError, SaveResult};
use std::collections::BTreeMap;
use vstd::prelude::*;

verus! {

broadcast use {
    vstd::laws_cmp::group_laws_cmp,
    vstd::std_specs::btree::group_btree_axioms,
    vstd::std_specs::btree::axiom_spec_keys_iter,
};

/// A migration outcome, each byte vector taken by its view.
pub open spec fn outcome_view(r: SaveResult<Vec<u8>>) -> Result<Seq<u8>, SaveError> {
    match r {
        Ok(v) => Ok(v@),
        Err(e) => Err(e),
    }
}

/// One upgrade step: transforms raw save data of version N into version N + 1.
///
/// Every `Fn(Vec<u8>) -> SaveResult<Vec<u8>>` closure is such a step.
pub trait MigrationStep: Send + Sync {
    /// `res` is an outcome that this step may give for input `data`.
    spec fn gives(&self, data: Seq<u8>, res: Result<Seq<u8>, SaveError>) -> bool;

    /// Upgrade `data` by one version.
    fn apply(&self, data: Vec<u8>) -> (res: SaveResult<Vec<u8>>)
        ensures
            self.gives(data@, outcome_view(res)),
    ;
}

/// Calls the caller-supplied closure `f` on `data`. The closure is the
/// caller's own code: the only claim is the one every call makes, that when
/// `f`'s precondition holds the result is an outcome of `f` on `data`
/// (`call_ensures`). Nothing is claimed where the precondition fails.
#[verifier::external_body]
fn call_step_closure<F: Fn(Vec<u8>) -> SaveResult<Vec<u8>>>(f: &F, data: Vec<u8>) -> (res: SaveResult<Vec<u8>>)
    ensures
        call_requires(*f, (data,)) ==> call_ensures(*f, (data,), res),
{
    f(data)
}

/// `r` is an outcome of closure `f` on `d`, where `f`'s precondition holds.
pub open spec fn closure_gives<F: Fn(Vec<u8>) -> SaveResult<Vec<u8>>>(f: F, d: Vec<u8>, r: SaveResult<Vec<u8>>) -> bool {
    call_requires(f, (d,)) ==> call_ensures(f, (d,), r)
}

impl<F: Fn(Vec<u8>) -> SaveResult<Vec<u8>> + Send + Sync> MigrationStep for F {
    /// Some input with these bytes, on which the closure's precondition
    /// holds, has `res` (bytes taken by their view) as an outcome of the
    /// closure; where the precondition fails, any outcome may come.
    open spec fn gives(&self, data: Seq<u8>, res: Result<Seq<u8>, SaveError>) -> bool {
        exists|d: Vec<u8>, r: SaveResult<Vec<u8>>|
            d@ == data && outcome_view(r) == res && #[trigger] closure_gives(*self, d, r)
    }

    /// Runs the closure on `data`: the result is what the closure returns.
    fn apply(&self, data: Vec<u8>) -> (res: SaveResult<Vec<u8>>) {
        let ghost d = data;
        let res = call_step_closure(self, data);
        proof {
            assert(closure_gives(*self, d, res));
        }
        res
    }
}

/// A boxed migration step, as stored in a [`MigrationRegistry`].
pub type MigrationFn = Box<dyn MigrationStep>;

/// Registry of migration functions for upgrading old save data.
///
/// Each migration transforms the raw payload bytes from one version to the next.
/// Migrations are applied sequentially: v1 -> v2 -> v3 -> ... -> current.
pub struct MigrationRegistry {
    migrations: BTreeMap<u32, MigrationFn>,
}

/// Version numbers are ordered as `BTreeMap` needs its keys to be.
proof fn lemma_version_keys_ordered()
    ensures
        vstd::laws_cmp::obeys_cmp::<u32>(),
{
}

impl MigrationRegistry {
    /// The registered steps, by source version.
    pub closed spec fn steps(&self) -> Map<u32, MigrationFn> {
        self.migrations@
    }

    /// The source versions that have a registered step.
    pub open spec fn sources(&self) -> Set<u32> {
        self.steps().dom()
    }

    /// Every version in `from .. target` has a registered step.
    pub open spec fn covers(&self, from: u32, target: u32) -> bool {
        forall|v: u32| from <= v < target ==> #[trigger] self.sources().contains(v)
    }

    /// `res` is an outcome of running the steps for versions `from`,
    /// `from + 1`, ..., `target - 1` in order on `data`, each on the output of
    /// the one before: a missing step ends the run with `NoMigration` of its
    /// version, a failing step ends it with that step's own error, and after
    /// the last step the run gives that step's output (`data` itself when
    /// `from >= target`).
    pub open spec fn runs(&self, data: Seq<u8>, from: int, target: int, res: Result<Seq<u8>, SaveError>) -> bool
        decreases target - from,
    {
        if from >= target {
            res == Ok::<Seq<u8>, SaveError>(data)
        } else if !self.sources().contains(from as u32) {
            res == Err::<Seq<u8>, SaveError>(SaveError::NoMigration(from as u32))
        } else {
            exists|mid: Result<Seq<u8>, SaveError>| #[trigger] self.steps()[from as u32].gives(data, mid)
                && match mid {
                    Ok(next) => self.runs(next, from + 1, target, res),
                    Err(e) => res == Err::<Seq<u8>, SaveError>(e),
                }
        }
    }

    /// `cur` can come out of running the steps for `from .. v` on `data`, each
    /// of them succeeding.
    pub open spec fn reaches(&self, data: Seq<u8>, from: int, v: int, cur: Seq<u8>) -> bool
        decreases v - from,
    {
        if v <= from {
            cur == data
        } else {
            &&& self.sources().contains((v - 1) as u32)
            &&& exists|prev: Seq<u8>| self.reaches(data, from, v - 1, prev)
                && #[trigger] self.steps()[(v - 1) as u32].gives(prev, Ok::<Seq<u8>, SaveError>(cur))
        }
    }

    /// A successful prefix of a run followed by a run of the rest is a run of the whole.
    proof fn lemma_reaches_then_runs(&self, data: Seq<u8>, from: int, v: int, cur: Seq<u8>, target: int,
        res: Result<Seq<u8>, SaveError>)
        requires
            0 <= from <= v <= target <= u32::MAX,
            self.reaches(data, from, v, cur),
            self.runs(cur, v, target, res),
        ensures
            self.runs(data, from, target, res),
        decreases v - from,
    {
        if v > from {
            let prev = choose|prev: Seq<u8>| self.reaches(data, from, v - 1, prev)
                && #[trigger] self.steps()[(v - 1) as u32].gives(prev, Ok::<Seq<u8>, SaveError>(cur));
            assert((v - 1) + 1 == v);
            assert(self.steps()[(v - 1) as u32].gives(prev, Ok::<Seq<u8>, SaveError>(cur)));
            assert(self.runs(prev, v - 1, target, res));
            self.lemma_reaches_then_runs(data, from, v - 1, prev, target, res);
        }
    }

    /// Running the single version `v` gives exactly what its step gives, or
    /// `NoMigration(v)` when no step is registered for it.
    pub proof fn lemma_runs_one_step(&self, data: Seq<u8>, v: u32, res: Result<Seq<u8>, SaveError>)
        ensures
            self.runs(data, v as int, v + 1, res) <==> if self.sources().contains(v) {
                self.steps()[v].gives(data, res)
            } else {
                res == Err::<Seq<u8>, SaveError>(SaveError::NoMigration(v))
            },
    {
        assert((v as int) as u32 == v);
        if self.sources().contains(v) {
            if self.steps()[v].gives(data, res) {
                match res {
                    Ok(next) => {
                        assert(self.runs(next, v + 1, v + 1, res));
                    },
                    Err(_) => {},
                }
                assert(self.runs(data, v as int, v + 1, res));
            }
            if self.runs(data, v as int, v + 1, res) {
                let mid = choose|mid: Result<Seq<u8>, SaveError>| #[trigger] self.steps()[v].gives(data, mid)
                    && match mid {
                        Ok(next) => self.runs(next, v + 1, v + 1, res),
                        Err(e) => res == Err::<Seq<u8>, SaveError>(e),
                    };
                assert(mid == res);
            }
        }
    }

    proof fn lemma_runs_split_int(&self, data: Seq<u8>, from: int, mid: int, target: int,
        res: Result<Seq<u8>, SaveError>)
        requires
            0 <= from <= mid <= target <= u32::MAX,
        ensures
            self.runs(data, from, target, res) <==> exists|x: Result<Seq<u8>, SaveError>|
                #[trigger] self.runs(data, from, mid, x) && match x {
                    Ok(y) => self.runs(y, mid, target, res),
                    Err(e) => res == Err::<Seq<u8>, SaveError>(e),
                },
        decreases mid - from,
    {
        let whole = self.runs(data, from, target, res);
        let split = exists|x: Result<Seq<u8>, SaveError>|
            #[trigger] self.runs(data, from, mid, x) && match x {
                Ok(y) => self.runs(y, mid, target, res),
                Err(e) => res == Err::<Seq<u8>, SaveError>(e),
            };
        if mid == from {
            let x = Ok::<Seq<u8>, SaveError>(data);
            assert(self.runs(data, from, mid, x));
            if split {
                let x2 = choose|x: Result<Seq<u8>, SaveError>|
                    #[trigger] self.runs(data, from, mid, x) && match x {
                        Ok(y) => self.runs(y, mid, target, res),
                        Err(e) => res == Err::<Seq<u8>, SaveError>(e),
                    };
                assert(x2 == x);
            }
        } else if !self.sources().contains(from as u32) {
            let x = Err::<Seq<u8>, SaveError>(SaveError::NoMigration(from as u32));
            assert(self.runs(data, from, mid, x));
            if split {
                let x2 = choose|x: Result<Seq<u8>, SaveError>|
                    #[trigger] self.runs(data, from, mid, x) && match x {
                        Ok(y) => self.runs(y, mid, target, res),
                        Err(e) => res == Err::<Seq<u8>, SaveError>(e),
                    };
                assert(x2 == x);
            }
        } else {
            let step = self.steps()[from as u32];
            if whole {
                let m = choose|m: Result<Seq<u8>, SaveError>| #[trigger] step.gives(data, m)
                    && match m {
                        Ok(next) => self.runs(next, from + 1, target, res),
                        Err(e) => res == Err::<Seq<u8>, SaveError>(e),
                    };
                match m {
                    Ok(next) => {
                        self.lemma_runs_split_int(next, from + 1, mid, target, res);
                        let x = choose|x: Result<Seq<u8>, SaveError>|
                            #[trigger] self.runs(next, from + 1, mid, x) && match x {
                                Ok(y) => self.runs(y, mid, target, res),
                                Err(e) => res == Err::<Seq<u8>, SaveError>(e),
                            };
                        assert(self.runs(data, from, mid, x));
                    },
                    Err(e) => {
                        assert(self.runs(data, from, mid, m));
                    },
                }
                assert(split);
            }
            if split {
                let x = choose|x: Result<Seq<u8>, SaveError>|
                    #[trigger] self.runs(data, from, mid, x) && match x {
                        Ok(y) => self.runs(y, mid, target, res),
                        Err(e) => res == Err::<Seq<u8>, SaveError>(e),
                    };
                let m = choose|m: Result<Seq<u8>, SaveError>| #[trigger] step.gives(data, m)
                    && match m {
                        Ok(next) => self.runs(next, from + 1, mid, x),
                        Err(e) => x == Err::<Seq<u8>, SaveError>(e),
                    };
                match m {
                    Ok(next) => {
                        self.lemma_runs_split_int(next, from + 1, mid, target, res);
                        assert(self.runs(next, from + 1, target, res));
                    },
                    Err(e) => {},
                }
                assert(whole);
            }
        }
    }

    /// A run over `from .. target` is a run over `from .. mid` followed, when
    /// that succeeds, by a run over `mid .. target` on its output; when the
    /// first part fails, its error is the outcome of the whole.
    pub proof fn lemma_runs_split(&self, data: Seq<u8>, from: u32, mid: u32, target: u32,
        res: Result<Seq<u8>, SaveError>)
        requires
            from <= mid <= target,
        ensures
            self.runs(data, from as int, target as int, res) <==> exists|x: Result<Seq<u8>, SaveError>|
                #[trigger] self.runs(data, from as int, mid as int, x) && match x {
                    Ok(y) => self.runs(y, mid as int, target as int, res),
                    Err(e) => res == Err::<Seq<u8>, SaveError>(e),
                },
    {
        self.lemma_runs_split_int(data, from as int, mid as int, target as int, res);
    }

    /// An empty registry.
    pub fn new() -> (r: Self)
        ensures
            r.sources() == Set::<u32>::empty(),
    {
        MigrationRegistry { migrations: BTreeMap::new() }
    }

    /// Register a migration from `from_version` to `from_version + 1`,
    /// replacing any step registered earlier for that version.
    pub fn register<F: MigrationStep + 'static>(&mut self, from_version: u32, f: F)
        ensures
            final(self).sources() == old(self).sources().insert(from_version),
            forall|v: u32| v != from_version && old(self).sources().contains(v)
                ==> final(self).steps()[v] == old(self).steps()[v],
            forall|d: Seq<u8>, r: Result<Seq<u8>, SaveError>|
                #[trigger] final(self).steps()[from_version].gives(d, r) == f.gives(d, r),
            forall|d: Seq<u8>, r: Result<Seq<u8>, SaveError>|
                #[trigger] final(self).runs(d, from_version as int, from_version + 1, r) == f.gives(d, r),
    {
        let ghost fv = f;
        let step: MigrationFn = Box::new(f);
        proof {
            assert(forall|d: Seq<u8>, r: Result<Seq<u8>, SaveError>| #[trigger] step.gives(d, r) == fv.gives(d, r));
            lemma_version_keys_ordered();
        }
        let ghost before = self.migrations@;
        self.migrations.insert(from_version, step);
        assert(self.migrations@ == before.insert(from_version, step));
        proof {
            vstd::map::axiom_map_insert_domain(before, from_version, step);
            assert forall|v: u32| v != from_version && before.dom().contains(v)
                implies self.migrations@[v] == before[v] by {
                vstd::map::axiom_map_insert_different(before, v, from_version, step);
            }
            vstd::map::axiom_map_insert_same(before, from_version, step);
            assert forall|d: Seq<u8>, r: Result<Seq<u8>, SaveError>|
                #[trigger] self.runs(d, from_version as int, from_version + 1, r) == fv.gives(d, r) by {
                self.lemma_runs_one_step(d, from_version, r);
            }
        }
    }

    /// Whether a step is registered for source version `version`.
    pub fn has_migration(&self, version: u32) -> (b: bool)
        ensures
            b == self.sources().contains(version),
    {
        self.migrations.contains_key(&version)
    }

    /// Apply all necessary migrations to bring data from `from_version` up to `target_version`.
    ///
    /// The steps for `from_version`, `from_version + 1`, ... run in order, each on
    /// the output of the one before; the first step that fails ends the run with
    /// its error, and a version without a step ends it with `NoMigration`.
    pub fn migrate(&self, data: Vec<u8>, from_version: u32, target_version: u32) -> (res: SaveResult<Vec<u8>>)
        ensures
            from_version >= target_version ==> (res matches Ok(d) && d@ == data@),
            res is Ok ==> self.covers(from_version, target_version),
            !self.covers(from_version, target_version) ==> res is Err,
            from_version < target_version && !self.sources().contains(from_version)
                ==> (res matches Err(SaveError::NoMigration(v)) && v == from_version),
            self.runs(data@, from_version as int, target_version as int, outcome_view(res)),
    {
        let ghost given = data@;
        let mut cur_data = data;
        let mut v = from_version;
        while v < target_version
            invariant
                given == data@,
                from_version <= v,
                from_version < target_version ==> v <= target_version,
                from_version >= target_version ==> v == from_version,
                self.covers(from_version, v),
                v == from_version ==> cur_data@ == given,
                self.reaches(given, from_version as int, v as int, cur_data@),
            decreases target_version - v,
        {
            match self.migrations.get(&v) {
                None => {
                    proof {
                        assert(!self.sources().contains(v));
                        let res = Err::<Seq<u8>, SaveError>(SaveError::NoMigration(v));
                        assert(self.runs(cur_data@, v as int, target_version as int, res));
                        self.lemma_reaches_then_runs(given, from_version as int, v as int, cur_data@,
                            target_version as int, res);
                    }
                    return Err(SaveError::NoMigration(v));
                }
                Some(step) => {
                    let ghost cur = cur_data@;
                    proof {
                        assert(*step == self.steps()[v]);
                    }
                    match step.apply(cur_data) {
                        Ok(next) => {
                            proof {
                                assert(self.steps()[v].gives(cur, Ok::<Seq<u8>, SaveError>(next@)));
                                assert((v + 1) - 1 == v);
                                assert(self.reaches(given, from_version as int, v + 1, next@));
                            }
                            cur_data = next;
                        }
                        Err(e) => {
                            proof {
                                let res = Err::<Seq<u8>, SaveError>(e);
                                assert(self.steps()[v].gives(cur, res));
                                assert(self.runs(cur, v as int, target_version as int, res));
                                self.lemma_reaches_then_runs(given, from_version as int, v as int, cur,
                                    target_version as int, res);
                            }
                            return Err(e);
                        }
                    }
                }
            }
            v = v + 1;
        }
        proof {
            if from_version < target_version {
                self.lemma_reaches_then_runs(given, from_version as int, v as int, cur_data@,
                    target_version as int, Ok::<Seq<u8>, SaveError>(cur_data@));
            }
        }
        Ok(cur_data)
    }

    /// Returns the highest version that can be migrated *to*
    /// (i.e. max registered source version + 1), or 0 if empty.
    pub fn max_target_version(&self) -> (t: u32)
        requires
            !self.sources().contains(u32::MAX),
        ensures
            self.sources().is_empty() ==> t == 0,
            !self.sources().is_empty() ==> {
                &&& self.sources().contains((t - 1) as u32)
                &&& forall|v: u32| #[trigger] self.sources().contains(v) ==> v < t
            },
    {
        let mut best: Option<u32> = None;
        for k in it: self.migrations.keys()
            invariant
                forall|i: int| 0 <= i < it.index() ==> self.sources().contains(*it.seq()[i]),
                it.seq().unref().to_set() == self.sources(),
                best matches Some(b) ==> self.sources().contains(b)
                    && forall|i: int| 0 <= i < it.index() ==> *it.seq()[i] <= b,
                best is None ==> it.index() == 0,
        {
            best = match best {
                Some(b) => if *k > b { Some(*k) } else { Some(b) },
                None => Some(*k),
            };
        }
        match best {
            Some(b) => b + 1,
            None => 0,
        }
    }
}

impl Default for MigrationRegistry {
    /// Same as [`MigrationRegistry::new`].
    fn default() -> (r: Self)
        ensures
            r.sources() == Set::<u32>::empty(),
    {
        Self::new()
    }
}

} // verus!
