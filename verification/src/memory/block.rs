//! Blocks, their states and their metadata.
use crate::error::Error;
use crate::ids::Uuid;
use vstd::prelude::*;

verus! {

/// Where the bytes of a block are.
#[derive(Clone, Debug, PartialEq, Eq)]
pub enum Location {
    Gpu { node_id: Uuid, gpu_id: String },
    Ram { node_id: Uuid },
    /// Reserved. No disk allocator exists.
    Disk { node_id: Uuid },
}

/// The model of a [`Location`].
pub enum LocationView {
    Gpu { node_id: Uuid, gpu_id: Seq<char> },
    Ram { node_id: Uuid },
    Disk { node_id: Uuid },
}

impl View for Location {
    type V = LocationView;

    open spec fn view(&self) -> LocationView {
        match *self {
            Location::Gpu { node_id, gpu_id } => LocationView::Gpu { node_id, gpu_id: gpu_id@ },
            Location::Ram { node_id } => LocationView::Ram { node_id },
            Location::Disk { node_id } => LocationView::Disk { node_id },
        }
    }
}

#[derive(Clone, Copy, Debug, PartialEq, Eq, Structural)]
pub enum BlockState {
    Writing,
    Ready,
    Migrating,
    Lost,
}

/// The declared type, shape and size of the tensor in a block.
#[derive(Clone, Debug, PartialEq, Eq)]
pub struct TensorMetadata {
    pub dtype: String,
    pub shape: Vec<u64>,
    pub layout: String,
    pub byte_length: u64,
}

/// The model of [`TensorMetadata`].
pub struct TensorView {
    pub dtype: Seq<char>,
    pub shape: Seq<u64>,
    pub layout: Seq<char>,
    pub byte_length: u64,
}

impl View for TensorMetadata {
    type V = TensorView;

    open spec fn view(&self) -> TensorView {
        TensorView {
            dtype: self.dtype@,
            shape: self.shape@,
            layout: self.layout@,
            byte_length: self.byte_length,
        }
    }
}

/// Bytes of one element of a dtype, if the dtype is known.
pub open spec fn element_width(dtype: Seq<char>) -> Option<nat> {
    if dtype == "uint8"@ || dtype == "int8"@ || dtype == "bool"@ {
        Some(1)
    } else if dtype == "float16"@ || dtype == "bfloat16"@ || dtype == "int16"@ {
        Some(2)
    } else if dtype == "float32"@ || dtype == "int32"@ {
        Some(4)
    } else if dtype == "float64"@ || dtype == "int64"@ || dtype == "complex64"@ {
        Some(8)
    } else if dtype == "complex128"@ {
        Some(16)
    } else {
        None
    }
}

/// `width` times every dimension in turn, unless a step leaves 64 bits.
pub open spec fn shaped_bytes(width: nat, shape: Seq<u64>) -> Option<nat>
    decreases shape.len(),
{
    if shape.len() == 0 {
        Some(width)
    } else {
        match shaped_bytes(width, shape.drop_last()) {
            Some(n) => if n * shape.last() <= u64::MAX {
                Some(n * shape.last() as nat)
            } else {
                None
            },
            None => None,
        }
    }
}

/// `size` bytes hold the tensor exactly.
pub open spec fn tensor_check(t: TensorView, size: u64) -> Result<(), Error> {
    if t.layout != "contiguous"@ || t.shape.len() > 32 {
        Err(Error::TensorLayout)
    } else if element_width(t.dtype) is None {
        Err(Error::TensorDtype)
    } else if shaped_bytes(element_width(t.dtype)->0, t.shape) == Some(size as nat) && size == t.byte_length {
        Ok(())
    } else {
        Err(Error::TensorSize)
    }
}

fn width_of(dtype: &String) -> (r: Option<u64>)
    ensures
        r matches Some(w) ==> element_width(dtype@) == Some(w as nat) && w <= 16,
        r is None ==> element_width(dtype@) is None,
{
    if *dtype == "uint8".to_owned() || *dtype == "int8".to_owned() || *dtype == "bool".to_owned() {
        Some(1)
    } else if *dtype == "float16".to_owned() || *dtype == "bfloat16".to_owned() || *dtype == "int16".to_owned() {
        Some(2)
    } else if *dtype == "float32".to_owned() || *dtype == "int32".to_owned() {
        Some(4)
    } else if *dtype == "float64".to_owned() || *dtype == "int64".to_owned() || *dtype == "complex64".to_owned() {
        Some(8)
    } else if *dtype == "complex128".to_owned() {
        Some(16)
    } else {
        None
    }
}

impl TensorMetadata {
    /// Checks that a contiguous tensor of this type and shape takes `size` bytes.
    pub fn validate(&self, size: u64) -> (r: Result<(), Error>)
        ensures
            r == tensor_check(self@, size),
    {
        if !(self.layout == "contiguous".to_owned()) || self.shape.len() > 32 {
            return Err(Error::TensorLayout);
        }
        let width: u64 = match width_of(&self.dtype) {
            Some(w) => w,
            None => {
                return Err(Error::TensorDtype);
            },
        };
        let mut bytes: Option<u64> = Some(width);
        let mut i: usize = 0;
        proof {
            assert(self.shape@.take(0) =~= Seq::<u64>::empty());
        }
        while i < self.shape.len()
            invariant
                i <= self.shape@.len(),
                match bytes {
                    Some(n) => shaped_bytes(width as nat, self.shape@.take(i as int)) == Some(n as nat),
                    None => shaped_bytes(width as nat, self.shape@.take(i as int)) is None,
                },
            decreases self.shape@.len() - i,
        {
            proof {
                assert(self.shape@.take(i + 1).drop_last() =~= self.shape@.take(i as int));
            }
            bytes = match bytes {
                Some(n) => n.checked_mul(self.shape[i]),
                None => None,
            };
            i = i + 1;
        }
        proof {
            assert(self.shape@.take(i as int) =~= self.shape@);
        }
        match bytes {
            Some(n) => if n == size && size == self.byte_length {
                Ok(())
            } else {
                Err(Error::TensorSize)
            },
            None => Err(Error::TensorSize),
        }
    }

    /// An equal copy.
    pub fn duplicate(&self) -> (r: Self)
        ensures
            r@ == self@,
    {
        let shape: Vec<u64> = self.shape.clone();
        assert(shape@ =~= self.shape@);
        TensorMetadata {
            dtype: self.dtype.clone(),
            shape,
            layout: self.layout.clone(),
            byte_length: self.byte_length,
        }
    }
}

/// A block and the right to use it.
#[derive(Clone, Debug, PartialEq, Eq)]
pub struct MemoryBlockHandle {
    pub id: Uuid,
    pub job_id: Uuid,
    pub size: u64,
    pub owner_node: Uuid,
    pub owner_incarnation: Uuid,
    pub location_type: Location,
    pub checksum: Option<String>,
    pub state: BlockState,
    pub lease_token: Uuid,
    pub lease_expires_ms: u64,
    pub generation: u64,
    pub tensor: Option<TensorMetadata>,
}

/// The model of a [`MemoryBlockHandle`].
pub struct HandleView {
    pub id: Uuid,
    pub job_id: Uuid,
    pub size: u64,
    pub owner_node: Uuid,
    pub owner_incarnation: Uuid,
    pub location_type: LocationView,
    pub checksum: Option<Seq<char>>,
    pub state: BlockState,
    pub lease_token: Uuid,
    pub lease_expires_ms: u64,
    pub generation: u64,
    pub tensor: Option<TensorView>,
}

impl View for MemoryBlockHandle {
    type V = HandleView;

    open spec fn view(&self) -> HandleView {
        HandleView {
            id: self.id,
            job_id: self.job_id,
            size: self.size,
            owner_node: self.owner_node,
            owner_incarnation: self.owner_incarnation,
            location_type: self.location_type@,
            checksum: match self.checksum {
                Some(c) => Some(c@),
                None => None,
            },
            state: self.state,
            lease_token: self.lease_token,
            lease_expires_ms: self.lease_expires_ms,
            generation: self.generation,
            tensor: match self.tensor {
                Some(t) => Some(t@),
                None => None,
            },
        }
    }
}

impl MemoryBlockHandle {
    /// An equal copy.
    pub fn duplicate(&self) -> (r: Self)
        ensures
            r@ == self@,
    {
        MemoryBlockHandle {
            id: self.id,
            job_id: self.job_id,
            size: self.size,
            owner_node: self.owner_node,
            owner_incarnation: self.owner_incarnation,
            location_type: match &self.location_type {
                Location::Gpu { node_id, gpu_id } => Location::Gpu { node_id: *node_id, gpu_id: gpu_id.clone() },
                Location::Ram { node_id } => Location::Ram { node_id: *node_id },
                Location::Disk { node_id } => Location::Disk { node_id: *node_id },
            },
            checksum: match &self.checksum {
                Some(c) => Some(c.clone()),
                None => None,
            },
            state: self.state,
            lease_token: self.lease_token,
            lease_expires_ms: self.lease_expires_ms,
            generation: self.generation,
            tensor: match &self.tensor {
                Some(t) => Some(t.duplicate()),
                None => None,
            },
        }
    }
}

} // verus!
