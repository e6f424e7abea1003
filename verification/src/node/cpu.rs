//! Processors.
use vstd::prelude::*;

verus! {

/// The processors of a node.
#[derive(Clone, Debug)]
pub struct CpuCapabilities {
    pub model: String,
    pub physical_cores: usize,
    pub logical_cores: usize,
    pub architecture: String,
}

/// The model of [`CpuCapabilities`].
pub struct CpuView {
    pub model: Seq<char>,
    pub physical_cores: usize,
    pub logical_cores: usize,
    pub architecture: Seq<char>,
}

impl View for CpuCapabilities {
    type V = CpuView;

    open spec fn view(&self) -> CpuView {
        CpuView {
            model: self.model@,
            physical_cores: self.physical_cores,
            logical_cores: self.logical_cores,
            architecture: self.architecture@,
        }
    }
}

impl CpuCapabilities {
    /// An equal copy.
    pub fn duplicate(&self) -> (r: Self)
        ensures
            r@ == self@,
    {
        CpuCapabilities {
            model: self.model.clone(),
            physical_cores: self.physical_cores,
            logical_cores: self.logical_cores,
            architecture: self.architecture.clone(),
        }
    }
}

impl Default for CpuCapabilities {
    fn default() -> (r: Self)
        ensures
            r@ == (CpuView {
                model: Seq::empty(),
                physical_cores: 0,
                logical_cores: 0,
                architecture: Seq::empty(),
            }),
    {
        CpuCapabilities {
            model: String::new(),
            physical_cores: 0,
            logical_cores: 0,
            architecture: String::new(),
        }
    }
}

} // verus!
