//! The visual entity registry: graph element to visual handle, one to one.
//!
//! The registry is a weak map from graph element keys to render-backend
//! handles. It never owns a visual; it only remembers which handle was
//! spawned for which element, so that a sync pass can update existing
//! visuals in place and spawn a visual at most once per element. Handles
//! are allocated here from a counter, so they are unique by construction.
use vstd::prelude::*;
use crate::graph::{Graph, NodeId, EdgeId};
use crate::render::RenderCommand;

verus! {

/// The key of a visual: which graph element it depicts. A node may own
/// several visuals - its body and its sockets, told apart by the socket
/// index.
#[derive(Clone, Copy, Debug, PartialEq, Eq, Structural)]
pub enum ElementKey {
    NodeBody(NodeId),
    Socket(NodeId, u32),
    EdgeCurve(EdgeId),
}

/// The graph element named by key `k` is still live.
pub open spec fn key_live(g: Graph, k: ElementKey) -> bool {
    match k {
        ElementKey::NodeBody(id) => g.node_live(id),
        ElementKey::Socket(id, _) => g.node_live(id),
        ElementKey::EdgeCurve(e) => g.edge_live(e),
    }
}

/// Executable mirror of `key_live`.
pub fn key_live_exec(g: &Graph, k: ElementKey) -> (r: bool)
    ensures
        r == key_live(*g, k),
{
    match k {
        ElementKey::NodeBody(id) => g.node_live_exec(id),
        ElementKey::Socket(id, _) => g.node_live_exec(id),
        ElementKey::EdgeCurve(e) => e.index < g.edges.len() && g.edges[e.index].gen == e.gen
            && g.edges[e.index].link.is_some(),
    }
}

/// The despawn commands owed for the dead entries among the first `n`.
pub open spec fn despawns_upto(g: Graph, entries: Seq<RegEntry>, n: int) -> Seq<RenderCommand>
    decreases n,
{
    if n <= 0 {
        Seq::empty()
    } else if key_live(g, entries[n - 1].key) {
        despawns_upto(g, entries, n - 1)
    } else {
        despawns_upto(g, entries, n - 1).push(
            RenderCommand::Despawn { handle: entries[n - 1].handle },
        )
    }
}

/// One registry entry: a key and the handle spawned for it.
#[derive(Clone, Copy, Debug, PartialEq, Eq, Structural)]
pub struct RegEntry {
    pub key: ElementKey,
    pub handle: u64,
}

/// The registry: entries in spawn order, plus the next fresh handle.
#[derive(Debug)]
pub struct VisualRegistry {
    pub entries: Vec<RegEntry>,
    pub next_handle: u64,
}

impl VisualRegistry {
    /// Some entry holds key `k`.
    pub open spec fn contains_key(self, k: ElementKey) -> bool {
        exists|i: int| 0 <= i < self.entries@.len() && self.entries@[i].key == k
    }

    /// Some entry holds handle `h`.
    pub open spec fn contains_handle(self, h: u64) -> bool {
        exists|i: int| 0 <= i < self.entries@.len() && self.entries@[i].handle == h
    }

    /// Well-formed: keys are unique (one visual per element, ever),
    /// handles are unique and below the allocation counter.
    pub open spec fn wf(self) -> bool {
        &&& forall|i: int, j: int|
            0 <= i < j < self.entries@.len() ==> #[trigger] self.entries@[i].key
                != #[trigger] self.entries@[j].key
        &&& forall|i: int, j: int|
            0 <= i < j < self.entries@.len() ==> #[trigger] self.entries@[i].handle
                != #[trigger] self.entries@[j].handle
        &&& forall|i: int|
            0 <= i < self.entries@.len() ==> #[trigger] self.entries@[i].handle
                < self.next_handle
    }

    /// An empty registry.
    pub fn new() -> (r: VisualRegistry)
        ensures
            r.wf(),
            r.entries@.len() == 0,
            r.next_handle == 0,
    {
        VisualRegistry { entries: Vec::new(), next_handle: 0 }
    }

    /// How many visuals are registered.
    pub fn len(&self) -> (n: usize)
        ensures
            n == self.entries@.len(),
    {
        self.entries.len()
    }

    /// The handle registered for key `k`, if any (search before spawn).
    pub fn lookup(&self, k: ElementKey) -> (r: Option<u64>)
        requires
            self.wf(),
        ensures
            match r {
                Some(h) => exists|i: int|
                    0 <= i < self.entries@.len() && self.entries@[i] == (RegEntry {
                        key: k,
                        handle: h,
                    }),
                None => !self.contains_key(k),
            },
    {
        let mut i: usize = 0;
        while i < self.entries.len()
            invariant
                i <= self.entries@.len(),
                forall|j: int| 0 <= j < i ==> #[trigger] self.entries@[j].key != k,
            decreases self.entries@.len() - i,
        {
            if self.entries[i].key == k {
                return Some(self.entries[i].handle);
            }
            i = i + 1;
        }
        None
    }

    /// Register a fresh visual for key `k` and return its new handle.
    /// The key must not be registered yet: a visual is spawned at most
    /// once per element.
    pub fn register(&mut self, k: ElementKey) -> (h: u64)
        requires
            old(self).wf(),
            !old(self).contains_key(k),
            old(self).next_handle < u64::MAX,
        ensures
            final(self).wf(),
            h == old(self).next_handle,
            final(self).next_handle == old(self).next_handle + 1,
            final(self).entries@ == old(self).entries@.push(RegEntry { key: k, handle: h }),
            final(self).contains_key(k),
    {
        let h = self.next_handle;
        self.entries.push(RegEntry { key: k, handle: h });
        self.next_handle = h + 1;
        proof {
            assert(self.entries@[self.entries@.len() - 1].key == k);
        }
        h
    }

    /// Release the visuals of removed graph elements: drop every entry
    /// whose element is no longer live and append one despawn command per
    /// dropped visual. Entries of live elements survive unchanged, in
    /// order, with their handles.
    pub fn prune(&mut self, g: &Graph, cmds: &mut Vec<RenderCommand>)
        requires
            old(self).wf(),
        ensures
            final(self).wf(),
            final(self).next_handle == old(self).next_handle,
            // exactly the live-element entries remain
            forall|k: ElementKey| #[trigger]
                final(self).contains_key(k) <==> old(self).contains_key(k) && key_live(*g, k),
            forall|p: int|
                0 <= p < final(self).entries@.len() ==> key_live(
                    *g,
                    #[trigger] final(self).entries@[p].key,
                ) && old(self).entries@.contains(final(self).entries@[p]),
            forall|i: int|
                0 <= i < old(self).entries@.len() && key_live(
                    *g,
                    #[trigger] old(self).entries@[i].key,
                ) ==> final(self).entries@.contains(old(self).entries@[i]),
            // one despawn per dropped visual
            final(cmds)@ == old(cmds)@ + despawns_upto(*g, old(self).entries@, old(self).entries@.len() as int),
    {
        let ghost src = self.entries@;
        let mut keep: Vec<RegEntry> = Vec::new();
        let ghost mut srcidx: Seq<int> = Seq::empty();
        let ghost cmds_pre = cmds@;
        let n = self.entries.len();
        let mut i: usize = 0;
        while i < n
            invariant
                n == src.len(),
                self.entries@ == src,
                i <= n,
                srcidx.len() == keep@.len(),
                forall|p: int|
                    0 <= p < keep@.len() ==> 0 <= #[trigger] srcidx[p] < i && src[srcidx[p]]
                        == keep@[p] && key_live(*g, keep@[p].key),
                forall|p: int, q: int| 0 <= p < q < keep@.len() ==> srcidx[p] < srcidx[q],
                forall|i2: int|
                    0 <= i2 < i && key_live(*g, #[trigger] src[i2].key) ==> exists|p: int|
                        0 <= p < keep@.len() && keep@[p] == src[i2],
                cmds@ == cmds_pre + despawns_upto(*g, src, i as int),
            decreases n - i,
        {
            let e = self.entries[i];
            if key_live_exec(g, e.key) {
                let ghost kpre = keep@;
                keep.push(e);
                proof {
                    srcidx = srcidx.push(i as int);
                    assert(cmds@ =~= cmds_pre + despawns_upto(*g, src, i as int + 1));
                    assert forall|i2: int|
                        0 <= i2 < i + 1 && key_live(*g, #[trigger] src[i2].key) implies exists|
                        p: int,
                    | 0 <= p < keep@.len() && keep@[p] == src[i2] by {
                        if i2 < i {
                            let p = choose|p: int| 0 <= p < kpre.len() && kpre[p] == src[i2];
                            assert(keep@[p] == src[i2]);
                        } else {
                            assert(keep@[keep@.len() - 1] == src[i2]);
                        }
                    }
                }
            } else {
                cmds.push(RenderCommand::Despawn { handle: e.handle });
                proof {
                    assert(cmds@ =~= cmds_pre + despawns_upto(*g, src, i as int + 1));
                }
            }
            i = i + 1;
        }
        self.entries = keep;
        proof {
            let post = *self;
            assert forall|p: int, q: int|
                0 <= p < q < post.entries@.len() implies #[trigger] post.entries@[p].key
                != #[trigger] post.entries@[q].key by {
                assert(src[srcidx[p]] == post.entries@[p]);
                assert(src[srcidx[q]] == post.entries@[q]);
            }
            assert forall|p: int, q: int|
                0 <= p < q < post.entries@.len() implies #[trigger] post.entries@[p].handle
                != #[trigger] post.entries@[q].handle by {
                assert(src[srcidx[p]] == post.entries@[p]);
                assert(src[srcidx[q]] == post.entries@[q]);
            }
            assert forall|p: int|
                0 <= p < post.entries@.len() implies #[trigger] post.entries@[p].handle
                < post.next_handle by {
                assert(src[srcidx[p]] == post.entries@[p]);
            }
            assert forall|k: ElementKey| #[trigger]
                post.contains_key(k) implies old(self).contains_key(k) && key_live(*g, k) by {
                let p = choose|p: int| 0 <= p < post.entries@.len() && post.entries@[p].key == k;
                assert(src[srcidx[p]] == post.entries@[p]);
            }
            assert forall|k: ElementKey|
                old(self).contains_key(k) && key_live(*g, k) implies #[trigger] post.contains_key(
                k,
            ) by {
                let i2 = choose|i2: int| 0 <= i2 < src.len() && src[i2].key == k;
                let p = choose|p: int| 0 <= p < post.entries@.len() && post.entries@[p] == src[i2];
                assert(post.entries@[p].key == k);
            }
            assert forall|p: int| 0 <= p < post.entries@.len() implies key_live(
                *g,
                #[trigger] post.entries@[p].key,
            ) && old(self).entries@.contains(post.entries@[p]) by {
                assert(src[srcidx[p]] == post.entries@[p]);
            }
        }
    }

    /// The key whose visual carries handle `h`, if any (how a picking
    /// event is resolved back to a graph element).
    pub fn key_of_handle(&self, h: u64) -> (r: Option<ElementKey>)
        requires
            self.wf(),
        ensures
            match r {
                Some(k) => exists|i: int|
                    0 <= i < self.entries@.len() && self.entries@[i] == (RegEntry {
                        key: k,
                        handle: h,
                    }),
                None => !self.contains_handle(h),
            },
    {
        let mut i: usize = 0;
        while i < self.entries.len()
            invariant
                i <= self.entries@.len(),
                forall|j: int| 0 <= j < i ==> #[trigger] self.entries@[j].handle != h,
            decreases self.entries@.len() - i,
        {
            if self.entries[i].handle == h {
                return Some(self.entries[i].key);
            }
            i = i + 1;
        }
        None
    }
}

} // verus!
