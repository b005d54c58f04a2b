//! The provenance registry: where each parsed YAML document came from.
use vstd::prelude::*;

verus! {

/// A source of YAML data.
pub enum YamlSource {
    /// Directly loaded from a file on disk (a deck file or an overridden file).
    DiskFile(String),
    /// Loaded from an embedded resource.
    Resource(String),
    /// Loaded as slide metadata while parsing the given slide file.
    ///
    /// The first `usize` is the 1-based slide number in the file, the second
    /// the 0-based line offset used for error reporting.
    Slide(String, usize, usize),
}

/// The mathematical model of a [`YamlSource`].
pub ghost enum SourceModel {
    DiskFile(Seq<char>),
    Resource(Seq<char>),
    Slide(Seq<char>, nat, nat),
}

impl View for YamlSource {
    type V = SourceModel;

    open spec fn view(&self) -> SourceModel {
        match self {
            YamlSource::DiskFile(p) => SourceModel::DiskFile(p@),
            YamlSource::Resource(n) => SourceModel::Resource(n@),
            YamlSource::Slide(f, nr, ofs) => SourceModel::Slide(f@, *nr as nat, *ofs as nat),
        }
    }
}

/// An append-only log of YAML sources.
///
/// The handle of a source is its position in the log; handles are never
/// reused, since nothing is ever removed.
pub struct SourceRegistry {
    sources: Vec<YamlSource>,
}

impl View for SourceRegistry {
    type V = Seq<SourceModel>;

    closed spec fn view(&self) -> Seq<SourceModel> {
        self.sources@.map_values(|s: YamlSource| s@)
    }
}

impl SourceRegistry {
    /// An empty registry.
    pub fn new() -> (r: SourceRegistry)
        ensures
            r@ == Seq::<SourceModel>::empty(),
    {
        let r = SourceRegistry { sources: Vec::new() };
        assert(r@ =~= Seq::<SourceModel>::empty());
        r
    }

    /// The number of sources registered so far; this is the next handle.
    pub fn len(&self) -> (n: usize)
        ensures
            n == self@.len(),
    {
        self.sources.len()
    }

    /// Appends `source` and returns its handle, its position in the log.
    pub fn register(&mut self, source: YamlSource) -> (h: usize)
        ensures
            h == old(self)@.len(),
            final(self)@ == old(self)@.push(source@),
    {
        let h = self.sources.len();
        self.sources.push(source);
        proof {
            assert(final(self)@ =~= old(self)@.push(source@));
        }
        h
    }
}

/// The sources registered so far, in order of registration.
pub fn sources(registry: &SourceRegistry) -> (r: &Vec<YamlSource>)
    ensures
        r@.map_values(|s: YamlSource| s@) == registry@,
{
    &registry.sources
}

} // verus!
