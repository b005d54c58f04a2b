//! Resource lookup: override search paths, checked most recently added first,
//! before the resources built into the program.
use vstd::prelude::*;
use vstd::string::StringExecFns;

use crate::lines::views;
use crate::registry::{SourceModel, YamlSource};

verus! {

/// The override search paths, in the order they were added.
pub struct ResourcePaths {
    paths: Vec<String>,
}

impl View for ResourcePaths {
    type V = Seq<Seq<char>>;

    closed spec fn view(&self) -> Seq<Seq<char>> {
        views(self.paths@)
    }
}

/// What reading one candidate path gave.
#[derive(PartialEq, Eq, Structural, Clone, Copy)]
pub enum Probe {
    /// The file was read.
    Found,
    /// No file is there.
    Missing,
    /// Reading failed for another reason.
    Failed,
}

/// Where a resource is taken from.
#[derive(PartialEq, Eq, Structural, Clone, Copy)]
pub enum Lookup {
    /// From the candidate at this position of the search order.
    Override(usize),
    /// Reading the candidate at this position failed; the lookup fails.
    Error(usize),
    /// From the resources built into the program.
    Embedded,
}

/// The outcome of a lookup whose candidates gave `probes`, in search order:
/// the first candidate that was not missing decides.
pub open spec fn lookup_of(probes: Seq<Probe>) -> Lookup
    decreases probes.len(),
{
    if probes.len() == 0 {
        Lookup::Embedded
    } else {
        match lookup_of(probes.drop_last()) {
            Lookup::Embedded => match probes.last() {
                Probe::Found => Lookup::Override((probes.len() - 1) as usize),
                Probe::Failed => Lookup::Error((probes.len() - 1) as usize),
                Probe::Missing => Lookup::Embedded,
            },
            decided => decided,
        }
    }
}

impl ResourcePaths {
    /// No override paths.
    pub fn new() -> (r: ResourcePaths)
        ensures
            r@ == Seq::<Seq<char>>::empty(),
    {
        let r = ResourcePaths { paths: Vec::new() };
        assert(r@ =~= Seq::<Seq<char>>::empty());
        r
    }

    /// Adds an override path; it is searched before all earlier ones.
    pub fn add(&mut self, path: String)
        ensures
            final(self)@ == old(self)@.push(path@),
    {
        self.paths.push(path);
        assert(final(self)@ =~= old(self)@.push(path@));
    }

    /// The candidate paths in the order they are searched: most recently
    /// added first.
    pub fn search_order(&self) -> (r: Vec<String>)
        ensures
            views(r@) == self@.reverse(),
    {
        let mut r: Vec<String> = Vec::new();
        let n = self.paths.len();
        let mut k: usize = n;
        while k > 0
            invariant
                k <= n == self.paths@.len(),
                views(r@) == self@.subrange(k as int, n as int).reverse(),
            decreases k,
        {
            k = k - 1;
            let ghost r0 = views(r@);
            let p = self.paths[k].clone();
            r.push(p);
            proof {
                let want = self@.subrange(k as int, n as int).reverse();
                assert(views(r@) =~= r0.push(p@));
                assert(want.len() == r0.len() + 1);
                assert forall|i: int| 0 <= i < want.len() implies want[i] == r0.push(p@)[i] by {
                    if i < r0.len() {
                        assert(r0[i] == self@.subrange(k + 1, n as int).reverse()[i]);
                    }
                }
                assert(want =~= r0.push(p@));
            }
        }
        assert(self@.subrange(0, n as int) =~= self@);
        r
    }
}

/// The override paths, in the order they were added.
pub fn paths(res: &ResourcePaths) -> (r: &Vec<String>)
    ensures
        views(r@) == res@,
{
    &res.paths
}

/// Decides a lookup from what reading each candidate gave, in search order.
pub fn lookup(probes: &Vec<Probe>) -> (r: Lookup)
    ensures
        r == lookup_of(probes@),
{
    let mut k: usize = 0;
    while k < probes.len()
        invariant
            k <= probes@.len(),
            lookup_of(probes@.take(k as int)) == Lookup::Embedded,
        decreases probes@.len() - k,
    {
        assert(probes@.take(k + 1).drop_last() =~= probes@.take(k as int));
        match probes[k] {
            Probe::Found => {
                proof {
                    lemma_lookup_decided(probes@, k as int + 1);
                }
                return Lookup::Override(k);
            },
            Probe::Failed => {
                proof {
                    lemma_lookup_decided(probes@, k as int + 1);
                }
                return Lookup::Error(k);
            },
            Probe::Missing => {},
        }
        k = k + 1;
    }
    assert(probes@.take(k as int) =~= probes@);
    Lookup::Embedded
}

proof fn lemma_lookup_decided(probes: Seq<Probe>, k: int)
    requires
        0 <= k <= probes.len(),
        lookup_of(probes.take(k)) != Lookup::Embedded,
    ensures
        lookup_of(probes) == lookup_of(probes.take(k)),
    decreases probes.len() - k,
{
    if k < probes.len() {
        assert(probes.take(k + 1).drop_last() =~= probes.take(k));
        lemma_lookup_decided(probes, k + 1);
    } else {
        assert(probes.take(k) =~= probes);
    }
}

/// The source to record for a resource named `resname`: the override file
/// it was read from, if any, else the built-in resource.
pub fn resource_source(found: Option<String>, resname: &str) -> (r: YamlSource)
    ensures
        r@ == match found {
            Some(p) => SourceModel::DiskFile(p@),
            None => SourceModel::Resource(resname@),
        },
{
    match found {
        Some(p) => YamlSource::DiskFile(p),
        None => YamlSource::Resource(String::from_str(resname)),
    }
}

} // verus!
