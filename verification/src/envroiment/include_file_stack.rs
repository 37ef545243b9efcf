use crate::app_path::sp_render;
use crate::app_path::AbsFilePath;
use crate::app_path::PathV;
use vstd::prelude::*;
use vstd::string::StringExecFns;

verus! {

/// The fault recorded when a file would be included while it is already
/// being processed: entering it again would loop forever.
#[derive(Debug)]
pub struct IncludeFileStackFault {
    path: String,
}

impl IncludeFileStackFault {
    /// The rendered text of the path that closed the cycle.
    pub closed spec fn path_view(&self) -> Seq<char> {
        self.path@
    }

    /// The fault message shown to the user.
    pub fn msg(&self) -> (r: String)
        ensures
            r@ == "IncludeError: Recursive inclusion detected. : "@ + self.path_view(),
    {
        let mut buf = String::from_str("IncludeError: Recursive inclusion detected. : ");
        buf.append(self.path.as_str());
        buf
    }
}

/// The ordered list of the files currently being processed, innermost last.
/// A file may appear at most once; pushing a path already on the stack is
/// how an include cycle is detected.
pub struct IncludeFileStack {
    included_files: Vec<AbsFilePath>,
}

impl View for IncludeFileStack {
    type V = Seq<PathV>;

    closed spec fn view(&self) -> Seq<PathV> {
        self.included_files.deep_view()
    }
}

impl IncludeFileStack {
    /// No path is on the stack twice.
    pub open spec fn wf(&self) -> bool {
        forall|i: int, j: int| 0 <= i < j < self@.len() ==> self@[i] != self@[j]
    }

    pub fn new() -> (s: Self)
        ensures
            s@ == Seq::<PathV>::empty(),
            s.wf(),
    {
        let s = Self { included_files: Vec::new() };
        proof {
            assert(s@ =~= Seq::<PathV>::empty());
        }
        s
    }

    /// Removes the innermost file, once its statements are done.
    pub fn pop(&mut self)
        ensures
            old(self)@.len() > 0 ==> final(self)@ == old(self)@.drop_last(),
            old(self)@.len() == 0 ==> final(self)@ == old(self)@,
            old(self).wf() ==> final(self).wf(),
    {
        let ghost old_view = self@;
        let popped = self.included_files.pop();
        proof {
            if old_view.len() > 0 {
                assert(self@ =~= old_view.drop_last());
            } else {
                assert(self@ =~= old_view);
            }
        }
    }

    /// Pushes the file about to be processed. The push is refused, and the
    /// stack left unchanged, exactly when the same path is already on the
    /// stack — that is the include-cycle guard.
    pub fn push(&mut self, abs_path: AbsFilePath) -> (r: Result<(), IncludeFileStackFault>)
        ensures
            match r {
                Ok(_) => {
                    &&& !old(self)@.contains(abs_path@)
                    &&& final(self)@ == old(self)@.push(abs_path@)
                    &&& old(self).wf() ==> final(self).wf()
                },
                Err(f) => {
                    &&& old(self)@.contains(abs_path@)
                    &&& final(self)@ == old(self)@
                    &&& f.path_view() == sp_render(abs_path@)
                },
            },
    {
        let ghost old_view = self@;
        let mut i: usize = 0;
        while i < self.included_files.len()
            invariant
                i <= self.included_files.len(),
                self@ == old_view,
                forall|k: int| 0 <= k < i ==> self@[k] != abs_path@,
            decreases self.included_files.len() - i,
        {
            if self.included_files[i].same_file(&abs_path) {
                proof {
                    assert(self@[i as int] == abs_path@);
                }
                return Err(IncludeFileStackFault { path: abs_path.get() });
            }
            i = i + 1;
        }
        proof {
            assert forall|k: int| 0 <= k < old_view.len() implies old_view[k] != abs_path@ by {}
            assert(!old_view.contains(abs_path@));
        }
        self.included_files.push(abs_path);
        proof {
            assert(self@ =~= old_view.push(abs_path@));
            if forall|i: int, j: int| 0 <= i < j < old_view.len() ==> old_view[i] != old_view[j] {
                assert forall|i: int, j: int| 0 <= i < j < self@.len() implies self@[i] != self@[j]
                by {
                    if j < old_view.len() {
                        assert(old_view[i] != old_view[j]);
                    } else {
                        assert(self@[j] == abs_path@);
                        assert(self@[i] == old_view[i]);
                    }
                }
            }
        }
        Ok(())
    }

    /// The file whose statements are being processed now.
    pub fn get_current_file(&self) -> (r: &AbsFilePath)
        requires
            self@.len() > 0,
        ensures
            r@ == self@.last(),
    {
        let r = &self.included_files[self.included_files.len() - 1];
        r
    }
}

} // verus!
