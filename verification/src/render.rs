//! Shared data contracts for the GPU layer, and the update policy for
//! dynamically sized buffers.
//!
//! The enums here name bind-group entry kinds, buffer roles and the
//! renderer-creation failure; the surrounding GPU code maps them onto the
//! graphics API's own descriptor values. [`DynamicBufferState`] makes the
//! write-in-place versus reallocate decision for a single growable buffer.

use vstd::prelude::*;

use crate::geom::Size;

verus! {

/// The kind of resource a bind-group layout entry exposes.
#[derive(Clone, Copy, Debug, PartialEq, Eq, Structural)]
pub enum BgEntryType {
    Uniform,
    Storage,
    Texture,
    Sampler,
}

/// What a GPU buffer is for; the dynamic roles are updated in place
/// frame to frame.
#[derive(Clone, Copy, Debug, PartialEq, Eq, Structural)]
pub enum BufferType {
    Vertex,
    Index,
    Instance,
    Uniform,
    Storage,
    VertexDynamic,
    IndexDynamic,
}

impl BufferType {
    /// The label stem used when naming buffers of this type.
    pub fn label(&self) -> (r: &'static str)
        ensures
            r@.len() > 0,
    {
        match self {
            BufferType::Vertex | BufferType::VertexDynamic => {
                proof {
                    reveal_strlit("Vertex");
                }
                "Vertex"
            },
            BufferType::Index | BufferType::IndexDynamic => {
                proof {
                    reveal_strlit("Index");
                }
                "Index"
            },
            BufferType::Instance => {
                proof {
                    reveal_strlit("Instance");
                }
                "Instance"
            },
            BufferType::Uniform => {
                proof {
                    reveal_strlit("Uniform");
                }
                "Uniform"
            },
            BufferType::Storage => {
                proof {
                    reveal_strlit("Storage");
                }
                "Storage"
            },
        }
    }
}

/// Why the renderer could not be brought up; unrecoverable at startup.
#[derive(Clone, Copy, Debug, PartialEq, Eq, Structural)]
pub enum CreateRendererError {
    UnableToRequestAdapter,
}

impl CreateRendererError {
    /// A human-readable description of the error.
    pub fn message(&self) -> (r: &'static str)
        ensures
            r@.len() > 0,
    {
        proof {
            reveal_strlit("Unable to request adapter");
        }
        "Unable to request adapter"
    }
}

/// Whether a resize request may be applied: zero-sized requests are
/// rejected (logged and ignored by the caller), so the configured size
/// always stays at its last valid value.
pub fn resize_accepted(size: &Size<u32>) -> (r: bool)
    ensures
        r == (size.width > 0 && size.height > 0),
{
    size.width > 0 && size.height > 0
}

/// What the caller must do to its buffer after planning an update.
#[derive(Clone, Copy, Debug, PartialEq, Eq, Structural)]
pub enum BufferAction {
    /// Empty data over an already-empty buffer: nothing to do.
    Unchanged,
    /// Empty data over a non-empty buffer: replace it by an empty one and
    /// reset the count.
    Cleared,
    /// The data fits the allocated capacity: overwrite the front of the
    /// buffer; no reallocation.
    WroteInPlace,
    /// The data outgrew the buffer: replace it by one sized to exactly the
    /// data length.
    Reallocated,
}

/// The bookkeeping for one dynamically sized GPU buffer: how many
/// instances its allocation can hold and how many are occupied.
#[derive(Clone, Copy, Debug, PartialEq, Eq, Structural)]
pub struct DynamicBufferState {
    pub capacity: u32,
    pub count: u32,
}

impl DynamicBufferState {
    /// The state of a buffer that was never written: no capacity, nothing
    /// occupied.
    pub fn new() -> (r: DynamicBufferState)
        ensures
            r == (DynamicBufferState { capacity: 0, count: 0 }),
    {
        DynamicBufferState { capacity: 0, count: 0 }
    }

    /// Decide how to bring the buffer to hold exactly `data_len`
    /// instances: write in place when the capacity suffices, reallocate to
    /// exactly the new length when it does not, and drop the allocation
    /// when the data is empty.
    pub fn plan_update(&mut self, data_len: u32) -> (action: BufferAction)
        ensures
            final(self).count == data_len,
            final(self).capacity == (if data_len == 0 {
                0u32
            } else if data_len <= old(self).capacity {
                old(self).capacity
            } else {
                data_len
            }),
            action == (if data_len == 0 {
                if old(self).capacity == 0 {
                    BufferAction::Unchanged
                } else {
                    BufferAction::Cleared
                }
            } else if data_len <= old(self).capacity {
                BufferAction::WroteInPlace
            } else {
                BufferAction::Reallocated
            }),
    {
        if data_len == 0 {
            let had = self.capacity;
            self.capacity = 0;
            self.count = 0;
            if had == 0 {
                BufferAction::Unchanged
            } else {
                BufferAction::Cleared
            }
        } else if data_len <= self.capacity {
            self.count = data_len;
            BufferAction::WroteInPlace
        } else {
            self.capacity = data_len;
            self.count = data_len;
            BufferAction::Reallocated
        }
    }

    /// The zero-instance render guard: draw only when instances are
    /// occupied, so an empty buffer issues no draw call at all.
    pub fn should_draw(&self) -> (r: bool)
        ensures
            r == (self.count > 0),
    {
        self.count > 0
    }
}

} // verus!
