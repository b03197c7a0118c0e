//! Load-average provenance of the CPU collector.
use vstd::prelude::*;

verus! {

/// Where the load averages of a CPU reading come from.
#[derive(Debug, Clone, Copy, PartialEq, Eq, Structural)]
pub enum LoadAverageSource {
    Unknown,
    Native,
    DerivedDemand,
}

/// The provenance reported by the platform layer.
#[derive(Debug, Clone, Copy, PartialEq, Eq, Structural)]
pub enum RawLoadAverageSource {
    Unknown,
    Native,
    DerivedDemand,
}

impl Default for LoadAverageSource {
    /// `Unknown` until a reading says otherwise.
    fn default() -> (r: Self)
        ensures
            r == LoadAverageSource::Unknown,
    {
        LoadAverageSource::Unknown
    }
}

/// Each platform provenance maps to the collector's variant of the same name.
pub fn map_load_avg_source(source: RawLoadAverageSource) -> (r: LoadAverageSource)
    ensures
        r == (match source {
            RawLoadAverageSource::Unknown => LoadAverageSource::Unknown,
            RawLoadAverageSource::Native => LoadAverageSource::Native,
            RawLoadAverageSource::DerivedDemand => LoadAverageSource::DerivedDemand,
        }),
{
    match source {
        RawLoadAverageSource::Unknown => LoadAverageSource::Unknown,
        RawLoadAverageSource::Native => LoadAverageSource::Native,
        RawLoadAverageSource::DerivedDemand => LoadAverageSource::DerivedDemand,
    }
}

} // verus!
