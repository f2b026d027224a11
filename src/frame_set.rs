//! The two frames of a connection and the directory each one shows.

use vstd::prelude::*;

use crate::text::{chars_eq, chars_of, string_of};

verus! {

/// Whether `key` names a frame: `a` or `b`.
pub open spec fn is_frame_key(key: Seq<char>) -> bool {
    key == "a"@ || key == "b"@
}

/// Whether `key` is `a`, given that it names a frame.
fn key_is_a(key: &str) -> (r: bool)
    requires
        is_frame_key(key@),
    ensures
        r == (key@ == "a"@),
{
    proof {
        reveal_strlit("a");
        reveal_strlit("b");
    }
    let c = chars_of(key);
    c[0] == 'a'
}

/// The paths of frames `a` and `b`; empty for a frame that has none yet.
pub struct FrameSet {
    a: String,
    b: String,
}

/// The paths of frame `a` and of frame `b`.
pub ghost struct FrameView {
    pub a: Seq<char>,
    pub b: Seq<char>,
}

impl FrameView {
    pub open spec fn path(self, key: Seq<char>) -> Seq<char> {
        if key == "a"@ {
            self.a
        } else {
            self.b
        }
    }

    pub open spec fn other_path(self, key: Seq<char>) -> Seq<char> {
        if key == "a"@ {
            self.b
        } else {
            self.a
        }
    }

    /// The path that frame `key` stops using when it moves to `new_path`:
    /// none when it stays, or when the other frame shows that path too.
    pub open spec fn path_to_be_unused(self, key: Seq<char>, new_path: Seq<char>) -> Option<Seq<char>> {
        let cur = self.path(key);
        if cur == new_path || self.other_path(key) == cur {
            None
        } else {
            Some(cur)
        }
    }

    pub open spec fn update(self, key: Seq<char>, path: Seq<char>) -> FrameView {
        if key == "a"@ {
            FrameView { a: path, b: self.b }
        } else {
            FrameView { a: self.a, b: path }
        }
    }
}

impl View for FrameSet {
    type V = FrameView;

    closed spec fn view(&self) -> FrameView {
        FrameView { a: self.a@, b: self.b@ }
    }
}

impl FrameSet {
    /// Both frames without a path.
    pub fn new() -> (r: FrameSet)
        ensures
            r@.a.len() == 0,
            r@.b.len() == 0,
    {
        FrameSet { a: String::new(), b: String::new() }
    }

    /// The path of frame `key`.
    pub fn path(&self, key: &str) -> (r: &str)
        requires
            is_frame_key(key@),
        ensures
            r@ == self@.path(key@),
    {
        if key_is_a(key) {
            self.a.as_str()
        } else {
            self.b.as_str()
        }
    }

    /// The path of the frame that is not `key`.
    pub fn other_path(&self, key: &str) -> (r: &str)
        requires
            is_frame_key(key@),
        ensures
            r@ == self@.other_path(key@),
    {
        if key_is_a(key) {
            self.b.as_str()
        } else {
            self.a.as_str()
        }
    }

    /// The paths of frame `a` and frame `b`.
    pub fn both_paths(&self) -> (r: (&str, &str))
        ensures
            r.0@ == self@.a,
            r.1@ == self@.b,
    {
        (self.a.as_str(), self.b.as_str())
    }

    /// The path that frame `key` stops using when it moves to `new_path`,
    /// unless it stays or the other frame still shows it.
    pub fn path_to_be_unused(&self, key: &str, new_path: &str) -> (r: Option<&str>)
        requires
            is_frame_key(key@),
        ensures
            match self@.path_to_be_unused(key@, new_path@) {
                Some(p) => r is Some && r->Some_0@ == p,
                None => r is None,
            },
    {
        let cur = self.path(key);
        let other = self.other_path(key);
        let cc = chars_of(cur);
        if chars_eq(&cc, &chars_of(new_path)) || chars_eq(&chars_of(other), &cc) {
            return None;
        }
        Some(cur)
    }

    /// Sets the path of frame `key`.
    pub fn update_path(&mut self, key: &str, path: &str)
        requires
            is_frame_key(key@),
        ensures
            final(self)@ == old(self)@.update(key@, path@),
    {
        let p = string_of(&chars_of(path));
        if key_is_a(key) {
            self.a = p;
        } else {
            self.b = p;
        }
    }
}

} // verus!
