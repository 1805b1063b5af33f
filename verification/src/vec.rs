//! Small fixed-size vectors with named components.

use std::ops::{Add, Div, Mul, Sub};
use vstd::prelude::*;
use vstd::std_specs::convert::{FromSpec, FromSpecImpl};
use vstd::std_specs::ops::{
    AddSpec, AddSpecImpl, DivSpec, DivSpecImpl, MulSpec, MulSpecImpl, SubSpec, SubSpecImpl,
};

verus! {

/// Three components of one type.
#[derive(Debug, Clone, Copy, PartialEq, Eq, Structural, PartialOrd, Ord)]
pub struct Vec3<I = u32>(pub I, pub I, pub I);

/// Two components of one type.
#[derive(Debug, Clone, Copy, PartialEq, Eq, Structural, PartialOrd, Ord)]
pub struct Vec2<I = u32>(pub I, pub I);

impl<I> Vec3<I> {
    /// Each component converted into `J`.
    pub fn convert<J: From<I>>(self) -> (r: Vec3<J>)
        ensures
            J::obeys_from_spec() ==> r == Vec3(J::from_spec(self.0), J::from_spec(self.1), J::from_spec(self.2)),
    {
        Vec3(J::from(self.0), J::from(self.1), J::from(self.2))
    }

    /// Each component handed to `f`.
    pub fn map<J, F: Fn(I) -> J>(self, f: F) -> (r: Vec3<J>)
        requires
            f.requires((self.0,)),
            f.requires((self.1,)),
            f.requires((self.2,)),
        ensures
            f.ensures((self.0,), r.0),
            f.ensures((self.1,), r.1),
            f.ensures((self.2,), r.2),
    {
        Vec3(f(self.0), f(self.1), f(self.2))
    }

    /// The component-wise product.
    pub fn hadamard<J, K>(self, rhs: Vec3<J>) -> (r: Vec3<K>) where I: Mul<J, Output = K>
        requires
            self.0.mul_req(rhs.0),
            self.1.mul_req(rhs.1),
            self.2.mul_req(rhs.2),
        ensures
            I::obeys_mul_spec() ==> r == Vec3(self.0.mul_spec(rhs.0), self.1.mul_spec(rhs.1), self.2.mul_spec(rhs.2)),
    {
        Vec3(self.0 * rhs.0, self.1 * rhs.1, self.2 * rhs.2)
    }
}

impl<I: Default> Default for Vec3<I> {
    fn default() -> (r: Self)
        ensures
            call_ensures(I::default, (), r.0),
            call_ensures(I::default, (), r.1),
            call_ensures(I::default, (), r.2),
    {
        Vec3(I::default(), I::default(), I::default())
    }
}

impl<I: Copy> From<[I; 3]> for Vec3<I> {
    fn from(arr: [I; 3]) -> (r: Vec3<I>) {
        Vec3(arr[0], arr[1], arr[2])
    }
}

impl<I: Copy> FromSpecImpl<[I; 3]> for Vec3<I> {
    open spec fn obeys_from_spec() -> bool {
        true
    }

    open spec fn from_spec(arr: [I; 3]) -> Vec3<I> {
        Vec3(arr[0], arr[1], arr[2])
    }
}

impl<I> From<(I, I, I)> for Vec3<I> {
    fn from(t: (I, I, I)) -> (r: Vec3<I>) {
        Vec3(t.0, t.1, t.2)
    }
}

impl<I> FromSpecImpl<(I, I, I)> for Vec3<I> {
    open spec fn obeys_from_spec() -> bool {
        true
    }

    open spec fn from_spec(t: (I, I, I)) -> Vec3<I> {
        Vec3(t.0, t.1, t.2)
    }
}

impl<I> Vec3<I> {
    /// The components as an array.
    pub fn into_array(self) -> (arr: [I; 3])
        ensures
            arr[0] == self.0,
            arr[1] == self.1,
            arr[2] == self.2,
    {
        [self.0, self.1, self.2]
    }

    /// The components as a tuple.
    pub fn into_tuple(self) -> (t: (I, I, I))
        ensures
            t == (self.0, self.1, self.2),
    {
        (self.0, self.1, self.2)
    }
}

impl<I, J, K> Add<Vec3<J>> for Vec3<I> where I: Add<J, Output = K> {
    type Output = Vec3<K>;

    fn add(self, rhs: Vec3<J>) -> (r: Vec3<K>) {
        Vec3(self.0 + rhs.0, self.1 + rhs.1, self.2 + rhs.2)
    }
}

impl<I, J, K> AddSpecImpl<Vec3<J>> for Vec3<I> where I: Add<J, Output = K> {
    open spec fn obeys_add_spec() -> bool {
        I::obeys_add_spec()
    }

    open spec fn add_req(self, rhs: Vec3<J>) -> bool {
        self.0.add_req(rhs.0) && self.1.add_req(rhs.1) && self.2.add_req(rhs.2)
    }

    open spec fn add_spec(self, rhs: Vec3<J>) -> Vec3<K> {
        Vec3(self.0.add_spec(rhs.0), self.1.add_spec(rhs.1), self.2.add_spec(rhs.2))
    }
}

impl<I, J, K> Sub<Vec3<J>> for Vec3<I> where I: Sub<J, Output = K> {
    type Output = Vec3<K>;

    fn sub(self, rhs: Vec3<J>) -> (r: Vec3<K>) {
        Vec3(self.0 - rhs.0, self.1 - rhs.1, self.2 - rhs.2)
    }
}

impl<I, J, K> SubSpecImpl<Vec3<J>> for Vec3<I> where I: Sub<J, Output = K> {
    open spec fn obeys_sub_spec() -> bool {
        I::obeys_sub_spec()
    }

    open spec fn sub_req(self, rhs: Vec3<J>) -> bool {
        self.0.sub_req(rhs.0) && self.1.sub_req(rhs.1) && self.2.sub_req(rhs.2)
    }

    open spec fn sub_spec(self, rhs: Vec3<J>) -> Vec3<K> {
        Vec3(self.0.sub_spec(rhs.0), self.1.sub_spec(rhs.1), self.2.sub_spec(rhs.2))
    }
}

impl<I, J, K> Mul<J> for Vec3<I> where I: Mul<J, Output = K>, J: Copy {
    type Output = Vec3<K>;

    fn mul(self, rhs: J) -> (r: Vec3<K>) {
        Vec3(self.0 * rhs, self.1 * rhs, self.2 * rhs)
    }
}

impl<I, J, K> MulSpecImpl<J> for Vec3<I> where I: Mul<J, Output = K>, J: Copy {
    open spec fn obeys_mul_spec() -> bool {
        I::obeys_mul_spec()
    }

    open spec fn mul_req(self, rhs: J) -> bool {
        self.0.mul_req(rhs) && self.1.mul_req(rhs) && self.2.mul_req(rhs)
    }

    open spec fn mul_spec(self, rhs: J) -> Vec3<K> {
        Vec3(self.0.mul_spec(rhs), self.1.mul_spec(rhs), self.2.mul_spec(rhs))
    }
}

impl<I, J, K> Div<J> for Vec3<I> where I: Div<J, Output = K>, J: Copy {
    type Output = Vec3<K>;

    fn div(self, rhs: J) -> (r: Vec3<K>) {
        Vec3(self.0 / rhs, self.1 / rhs, self.2 / rhs)
    }
}

impl<I, J, K> DivSpecImpl<J> for Vec3<I> where I: Div<J, Output = K>, J: Copy {
    open spec fn obeys_div_spec() -> bool {
        I::obeys_div_spec()
    }

    open spec fn div_req(self, rhs: J) -> bool {
        self.0.div_req(rhs) && self.1.div_req(rhs) && self.2.div_req(rhs)
    }

    open spec fn div_spec(self, rhs: J) -> Vec3<K> {
        Vec3(self.0.div_spec(rhs), self.1.div_spec(rhs), self.2.div_spec(rhs))
    }
}

impl<I> From<Vec3<I>> for Vec2<I> {
    fn from(v: Vec3<I>) -> (r: Vec2<I>) {
        Vec2(v.0, v.1)
    }
}

impl<I> FromSpecImpl<Vec3<I>> for Vec2<I> {
    open spec fn obeys_from_spec() -> bool {
        true
    }

    open spec fn from_spec(v: Vec3<I>) -> Vec2<I> {
        Vec2(v.0, v.1)
    }
}

impl<I> Vec2<I> {
    /// Each component converted into `J`.
    pub fn convert<J: From<I>>(self) -> (r: Vec2<J>)
        ensures
            J::obeys_from_spec() ==> r == Vec2(J::from_spec(self.0), J::from_spec(self.1)),
    {
        Vec2(J::from(self.0), J::from(self.1))
    }

    /// Each component handed to `f`.
    pub fn map<J, F: Fn(I) -> J>(self, f: F) -> (r: Vec2<J>)
        requires
            f.requires((self.0,)),
            f.requires((self.1,)),
        ensures
            f.ensures((self.0,), r.0),
            f.ensures((self.1,), r.1),
    {
        Vec2(f(self.0), f(self.1))
    }

    /// The component-wise product.
    pub fn hadamard<J, K>(self, rhs: Vec2<J>) -> (r: Vec2<K>) where I: Mul<J, Output = K>
        requires
            self.0.mul_req(rhs.0),
            self.1.mul_req(rhs.1),
        ensures
            I::obeys_mul_spec() ==> r == Vec2(self.0.mul_spec(rhs.0), self.1.mul_spec(rhs.1)),
    {
        Vec2(self.0 * rhs.0, self.1 * rhs.1)
    }
}

impl<I: Default> Default for Vec2<I> {
    fn default() -> (r: Self)
        ensures
            call_ensures(I::default, (), r.0),
            call_ensures(I::default, (), r.1),
    {
        Vec2(I::default(), I::default())
    }
}

impl<I: Copy> From<[I; 2]> for Vec2<I> {
    fn from(arr: [I; 2]) -> (r: Vec2<I>) {
        Vec2(arr[0], arr[1])
    }
}

impl<I: Copy> FromSpecImpl<[I; 2]> for Vec2<I> {
    open spec fn obeys_from_spec() -> bool {
        true
    }

    open spec fn from_spec(arr: [I; 2]) -> Vec2<I> {
        Vec2(arr[0], arr[1])
    }
}

impl<I> From<(I, I)> for Vec2<I> {
    fn from(t: (I, I)) -> (r: Vec2<I>) {
        Vec2(t.0, t.1)
    }
}

impl<I> FromSpecImpl<(I, I)> for Vec2<I> {
    open spec fn obeys_from_spec() -> bool {
        true
    }

    open spec fn from_spec(t: (I, I)) -> Vec2<I> {
        Vec2(t.0, t.1)
    }
}

impl<I> Vec2<I> {
    /// The components as an array.
    pub fn into_array(self) -> (arr: [I; 2])
        ensures
            arr[0] == self.0,
            arr[1] == self.1,
    {
        [self.0, self.1]
    }

    /// The components as a tuple.
    pub fn into_tuple(self) -> (t: (I, I))
        ensures
            t == (self.0, self.1),
    {
        (self.0, self.1)
    }
}

impl<I, J, K> Add<Vec2<J>> for Vec2<I> where I: Add<J, Output = K> {
    type Output = Vec2<K>;

    fn add(self, rhs: Vec2<J>) -> (r: Vec2<K>) {
        Vec2(self.0 + rhs.0, self.1 + rhs.1)
    }
}

impl<I, J, K> AddSpecImpl<Vec2<J>> for Vec2<I> where I: Add<J, Output = K> {
    open spec fn obeys_add_spec() -> bool {
        I::obeys_add_spec()
    }

    open spec fn add_req(self, rhs: Vec2<J>) -> bool {
        self.0.add_req(rhs.0) && self.1.add_req(rhs.1)
    }

    open spec fn add_spec(self, rhs: Vec2<J>) -> Vec2<K> {
        Vec2(self.0.add_spec(rhs.0), self.1.add_spec(rhs.1))
    }
}

impl<I, J, K> Sub<Vec2<J>> for Vec2<I> where I: Sub<J, Output = K> {
    type Output = Vec2<K>;

    fn sub(self, rhs: Vec2<J>) -> (r: Vec2<K>) {
        Vec2(self.0 - rhs.0, self.1 - rhs.1)
    }
}

impl<I, J, K> SubSpecImpl<Vec2<J>> for Vec2<I> where I: Sub<J, Output = K> {
    open spec fn obeys_sub_spec() -> bool {
        I::obeys_sub_spec()
    }

    open spec fn sub_req(self, rhs: Vec2<J>) -> bool {
        self.0.sub_req(rhs.0) && self.1.sub_req(rhs.1)
    }

    open spec fn sub_spec(self, rhs: Vec2<J>) -> Vec2<K> {
        Vec2(self.0.sub_spec(rhs.0), self.1.sub_spec(rhs.1))
    }
}

impl<I, J, K> Mul<J> for Vec2<I> where I: Mul<J, Output = K>, J: Copy {
    type Output = Vec2<K>;

    fn mul(self, rhs: J) -> (r: Vec2<K>) {
        Vec2(self.0 * rhs, self.1 * rhs)
    }
}

impl<I, J, K> MulSpecImpl<J> for Vec2<I> where I: Mul<J, Output = K>, J: Copy {
    open spec fn obeys_mul_spec() -> bool {
        I::obeys_mul_spec()
    }

    open spec fn mul_req(self, rhs: J) -> bool {
        self.0.mul_req(rhs) && self.1.mul_req(rhs)
    }

    open spec fn mul_spec(self, rhs: J) -> Vec2<K> {
        Vec2(self.0.mul_spec(rhs), self.1.mul_spec(rhs))
    }
}

impl<I, J, K> Div<J> for Vec2<I> where I: Div<J, Output = K>, J: Copy {
    type Output = Vec2<K>;

    fn div(self, rhs: J) -> (r: Vec2<K>) {
        Vec2(self.0 / rhs, self.1 / rhs)
    }
}

impl<I, J, K> DivSpecImpl<J> for Vec2<I> where I: Div<J, Output = K>, J: Copy {
    open spec fn obeys_div_spec() -> bool {
        I::obeys_div_spec()
    }

    open spec fn div_req(self, rhs: J) -> bool {
        self.0.div_req(rhs) && self.1.div_req(rhs)
    }

    open spec fn div_spec(self, rhs: J) -> Vec2<K> {
        Vec2(self.0.div_spec(rhs), self.1.div_spec(rhs))
    }
}

} // verus!
