//! The shader controller of the canvas: it follows the last WGSL file that
//! changed in the watched directory.
use vstd::prelude::*;
use crate::order::paths_view;
use crate::paths::{has_wgsl_extension, opt_view, path_extension};

verus! {

/// Whether `path` names a WGSL file.
pub open spec fn is_wgsl_path(path: Seq<char>) -> bool {
    path_extension(path) == Some(seq!['w', 'g', 's', 'l'])
}

/// The shader path after the file events `events`, starting from `path`:
/// the last event on a WGSL file, or `path` where there is none.
pub open spec fn path_after_events(path: Option<Seq<char>>, events: Seq<Seq<char>>) -> Option<
    Seq<char>,
>
    decreases events.len(),
{
    if events.len() == 0 {
        path
    } else if is_wgsl_path(events.last()) {
        Some(events.last())
    } else {
        path_after_events(path, events.drop_last())
    }
}

/// Follows the WGSL files that change in a directory.
pub struct ShaderController {
    /// The last WGSL file that changed, if any did.
    pub shader_path: Option<String>,
}

impl ShaderController {
    /// A controller that has seen no change yet.
    pub fn new() -> (c: Self)
        ensures
            c.shader_path is None,
    {
        ShaderController { shader_path: None }
    }

    /// Takes the file events `events`, in the order they came: the last
    /// one on a WGSL file becomes the shader path, which is returned.
    pub fn check_for_updates(&mut self, events: &Vec<String>) -> (path: Option<String>)
        ensures
            opt_view(final(self).shader_path) == path_after_events(
                opt_view(old(self).shader_path),
                paths_view(events@),
            ),
            path == final(self).shader_path,
    {
        let ghost start = opt_view(self.shader_path);
        let ghost ev = paths_view(events@);
        let n = events.len();
        let mut i: usize = 0;
        while i < n
            invariant
                n == events@.len(),
                ev == paths_view(events@),
                i <= n,
                opt_view(self.shader_path) == path_after_events(start, ev.take(i as int)),
            decreases n - i,
        {
            assert(ev.take(i + 1).drop_last() =~= ev.take(i as int));
            if has_wgsl_extension(events[i].as_str()) {
                self.shader_path = Some(events[i].clone());
            }
            i = i + 1;
        }
        assert(ev.take(n as int) =~= ev);
        self.shader_path.clone()
    }
}

/// The shader path after a batch of events is the one before it or one of
/// the events, a WGSL file; a batch with no WGSL file leaves it unchanged.
pub proof fn lemma_path_after_events(path: Option<Seq<char>>, events: Seq<Seq<char>>)
    ensures
        path_after_events(path, events) == path || (path_after_events(path, events) matches Some(
            p,
        ) && events.contains(p) && is_wgsl_path(p)),
        (forall|i: int| 0 <= i < events.len() ==> !is_wgsl_path(#[trigger] events[i]))
            ==> path_after_events(path, events) == path,
    decreases events.len(),
{
    if events.len() > 0 {
        lemma_path_after_events(path, events.drop_last());
        let r = path_after_events(path, events);
        if is_wgsl_path(events.last()) {
            assert(events[events.len() - 1] == events.last());
        } else if r != path {
            let p = r->0;
            let j = choose|j: int| 0 <= j < events.drop_last().len() && events.drop_last()[j] == p;
            assert(events[j] == p);
        }
        if forall|i: int| 0 <= i < events.len() ==> !is_wgsl_path(#[trigger] events[i]) {
            assert(!is_wgsl_path(events[events.len() - 1]));
            assert forall|i: int| 0 <= i < events.drop_last().len() implies !is_wgsl_path(
                #[trigger] events.drop_last()[i],
            ) by {
                assert(events.drop_last()[i] == events[i]);
            }
        }
    }
}

/// The shader path follows the last WGSL file among the events: where event
/// `k` is on a WGSL file and none after it is, the path becomes event `k`,
/// whatever the path was before and whatever came before `k`.
pub proof fn lemma_path_follows_last_wgsl(path: Option<Seq<char>>, events: Seq<Seq<char>>, k: int)
    requires
        0 <= k < events.len(),
        is_wgsl_path(events[k]),
        forall|j: int| k < j < events.len() ==> !is_wgsl_path(#[trigger] events[j]),
    ensures
        path_after_events(path, events) == Some(events[k]),
    decreases events.len(),
{
    if k < events.len() - 1 {
        assert(!is_wgsl_path(events[events.len() - 1]));
        let rest = events.drop_last();
        assert forall|j: int| k < j < rest.len() implies !is_wgsl_path(#[trigger] rest[j]) by {
            assert(rest[j] == events[j]);
        }
        lemma_path_follows_last_wgsl(path, rest, k);
    }
}

/// A WGSL path is one whose extension is exactly `wgsl`.
pub proof fn lemma_wgsl_path(path: Seq<char>)
    ensures
        is_wgsl_path(path) <==> path_extension(path) == Some(seq!['w', 'g', 's', 'l']),
{
}

} // verus!
