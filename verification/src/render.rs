//! Rendering primitives offered alongside the transport core.

use vstd::prelude::*;

verus! {

/// A host-backed rendering surface.
pub trait Renderer: Sized {
    fn new() -> Self;

    fn run(&self);
}

/// A clipped, positionable drawing region.
pub trait Frame {
    fn resize(&mut self, size: Size);

    fn clip(&mut self, start: Option<Point>, end: Option<Point>);

    fn position(&mut self, position: Point);
}

#[derive(Clone, Copy, Debug, PartialEq, Eq, Structural)]
pub struct Point {
    pub x: i32,
    pub y: i32,
}

#[derive(Clone, Copy, Debug, PartialEq, Eq, Structural)]
pub struct Size {
    pub w: i32,
    pub h: i32,
}

} // verus!
