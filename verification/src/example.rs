//! A component of a size chosen by hand, to show that a component need not
//! be a type the host knows.
use crate::component::{Component, StorageType, TypePath};
use vstd::prelude::*;

verus! {

/// Eight 64-bit values.
#[derive(Clone, Copy, Debug)]
pub struct DynamicComponent {
    pub data: [u64; 8],
}

impl DynamicComponent {
    /// The component with the given values.
    pub fn new(data: [u64; 8]) -> (component: Self)
        ensures
            component.data == data,
    {
        DynamicComponent { data }
    }

    /// The component with eight zeros.
    pub fn zeroed() -> (component: Self)
        ensures
            forall|i: int| 0 <= i < 8 ==> component.data[i] == 0,
    {
        DynamicComponent { data: [0;8] }
    }

    /// The component that begins with the first eight of `values`, or with
    /// all of them where they are fewer, and goes on with zeros.
    pub fn from_slice(values: &[u64]) -> (component: Self)
        ensures
            forall|i: int|
                0 <= i < 8 ==> component.data[i] == (if i < values@.len() {
                    values@[i]
                } else {
                    0
                }),
    {
        let mut data: [u64; 8] = [0;8];
        let len = if values.len() < 8 {
            values.len()
        } else {
            8
        };
        let mut i: usize = 0;
        while i < len
            invariant
                i <= len,
                len <= 8,
                len <= values@.len(),
                len == values@.len() || len == 8,
                forall|k: int| 0 <= k < i ==> data[k] == values@[k],
                forall|k: int| i <= k < 8 ==> data[k] == 0,
            decreases len - i,
        {
            data[i] = values[i];
            i += 1;
        }
        DynamicComponent { data }
    }
}

impl TypePath for DynamicComponent {
    open spec fn type_path_spec() -> Seq<char> {
        "bevy_mod_ffi::example::DynamicComponent"@
    }

    fn type_path() -> (path: &'static str) {
        "bevy_mod_ffi::example::DynamicComponent"
    }
}

impl Component for DynamicComponent {
    open spec fn storage_type_spec() -> StorageType {
        StorageType::Table
    }

    fn storage_type() -> (storage: StorageType) {
        StorageType::Table
    }
}

} // verus!
