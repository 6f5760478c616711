//! `Resource` and `ConstResource` implementations for the primitive integer
//! types (fresh value: zero) and for `Vec` (fresh value: empty).

use vstd::prelude::*;

use crate::{ConstResource, Resource};

verus! {

impl Resource for usize {
    open spec fn is_fresh(&self) -> bool {
        *self == 0
    }

    fn new() -> (r: Self) {
        0
    }
}

impl ConstResource for usize {
    fn init() -> (r: Self) {
        0
    }
}

impl Resource for isize {
    open spec fn is_fresh(&self) -> bool {
        *self == 0
    }

    fn new() -> (r: Self) {
        0
    }
}

impl ConstResource for isize {
    fn init() -> (r: Self) {
        0
    }
}

impl Resource for u8 {
    open spec fn is_fresh(&self) -> bool {
        *self == 0
    }

    fn new() -> (r: Self) {
        0
    }
}

impl ConstResource for u8 {
    fn init() -> (r: Self) {
        0
    }
}

impl Resource for i8 {
    open spec fn is_fresh(&self) -> bool {
        *self == 0
    }

    fn new() -> (r: Self) {
        0
    }
}

impl ConstResource for i8 {
    fn init() -> (r: Self) {
        0
    }
}

impl Resource for u16 {
    open spec fn is_fresh(&self) -> bool {
        *self == 0
    }

    fn new() -> (r: Self) {
        0
    }
}

impl ConstResource for u16 {
    fn init() -> (r: Self) {
        0
    }
}

impl Resource for i16 {
    open spec fn is_fresh(&self) -> bool {
        *self == 0
    }

    fn new() -> (r: Self) {
        0
    }
}

impl ConstResource for i16 {
    fn init() -> (r: Self) {
        0
    }
}

impl Resource for u32 {
    open spec fn is_fresh(&self) -> bool {
        *self == 0
    }

    fn new() -> (r: Self) {
        0
    }
}

impl ConstResource for u32 {
    fn init() -> (r: Self) {
        0
    }
}

impl Resource for i32 {
    open spec fn is_fresh(&self) -> bool {
        *self == 0
    }

    fn new() -> (r: Self) {
        0
    }
}

impl ConstResource for i32 {
    fn init() -> (r: Self) {
        0
    }
}

impl Resource for u64 {
    open spec fn is_fresh(&self) -> bool {
        *self == 0
    }

    fn new() -> (r: Self) {
        0
    }
}

impl ConstResource for u64 {
    fn init() -> (r: Self) {
        0
    }
}

impl Resource for i64 {
    open spec fn is_fresh(&self) -> bool {
        *self == 0
    }

    fn new() -> (r: Self) {
        0
    }
}

impl ConstResource for i64 {
    fn init() -> (r: Self) {
        0
    }
}

impl Resource for u128 {
    open spec fn is_fresh(&self) -> bool {
        *self == 0
    }

    fn new() -> (r: Self) {
        0
    }
}

impl ConstResource for u128 {
    fn init() -> (r: Self) {
        0
    }
}

impl Resource for i128 {
    open spec fn is_fresh(&self) -> bool {
        *self == 0
    }

    fn new() -> (r: Self) {
        0
    }
}

impl ConstResource for i128 {
    fn init() -> (r: Self) {
        0
    }
}

impl<T> Resource for Vec<T> {
    open spec fn is_fresh(&self) -> bool {
        self@.len() == 0
    }

    fn new() -> (r: Self) {
        Vec::new()
    }
}

impl<T> ConstResource for Vec<T> {
    fn init() -> (r: Self) {
        Vec::new()
    }
}

} // verus!
