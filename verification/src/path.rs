//! The device-tree path query engine: resolves a slash-separated path
//! expression over the lazy token stream to the cursors of matching tokens,
//! without materializing the tree.

use vstd::prelude::*;
use vstd::slice::slice_subrange;
use crate::bytes::{byte_pos, bytes_eq, find_byte, lemma_byte_pos};
use crate::device_tree::{lemma_token_step_bounds, token_step, Iter, Token, TokenStep, TokenView};
use crate::BootError;

verus! {

/// The path separator byte, `/`.
pub const SLASH: u8 = 47;

/// The byte opening a unit-address suffix in a node name, `@`.
pub const AT: u8 = 64;

/// `name` with a trailing `@address` qualifier removed: the prefix before
/// the first `@`, or all of it when there is none.
pub open spec fn strip_addr(name: Seq<u8>) -> Seq<u8> {
    name.subrange(0, byte_pos(name, AT, 0))
}

/// Where the path component starting at `cs` ends: the first slash at or
/// after `cs`, or the end of the path.
pub open spec fn seg_end(path: Seq<u8>, cs: int) -> int {
    byte_pos(path, SLASH, cs)
}

/// The expected path component starting at offset `cs`.
pub open spec fn component_at(path: Seq<u8>, cs: int) -> Seq<u8> {
    path.subrange(cs, seg_end(path, cs))
}

/// The start of the component after the one at `cs`: the byte past this
/// component's slash, or nothing when the path is exhausted.
pub open spec fn next_comp(path: Seq<u8>, cs: int) -> Option<int> {
    if seg_end(path, cs) == path.len() {
        None
    } else {
        Some(seg_end(path, cs) + 1)
    }
}

/// The start of the slash-delimited segment whose last byte sits just
/// before position `t`: scans left from `t` to the nearest slash boundary.
pub open spec fn seg_start(path: Seq<u8>, t: int) -> int
    recommends
        0 <= t <= path.len(),
    decreases t,
{
    if t <= 0 {
        0
    } else if path[t - 1] == SLASH {
        t
    } else {
        seg_start(path, t - 1)
    }
}

/// The start of the component before the one at `cs`: the segment ending at
/// the slash just before `cs`, or nothing when `cs` opens the path.
pub open spec fn prev_comp(path: Seq<u8>, cs: int) -> Option<int> {
    if cs <= 0 {
        None
    } else {
        Some(seg_start(path, cs - 1))
    }
}

/// The offset just past a whole node's subtree: consumes tokens, tracking
/// begin/end nesting from `level`, until the node's own end token closes.
/// An end-of-block token inside the subtree stops the scan where it stands.
pub open spec fn skip_steps(blob: Seq<u8>, soff: int, off: int, level: int) -> Result<
    int,
    BootError,
>
    decreases blob.len() + 8 - off
    via skip_steps_decreases
{
    match token_step(blob, soff, off) {
        TokenStep::Done => Ok(off),
        TokenStep::Fail(e) => Err(e),
        TokenStep::Tok(tv, n) => match tv {
            TokenView::Begin(_) => skip_steps(blob, soff, n, level + 1),
            TokenView::End => if level <= 1 {
                Ok(n)
            } else {
                skip_steps(blob, soff, n, level - 1)
            },
            _ => skip_steps(blob, soff, n, level),
        },
    }
}

#[via_fn]
proof fn skip_steps_decreases(blob: Seq<u8>, soff: int, off: int, level: int) {
    lemma_token_step_bounds(blob, soff, off);
}

/// Skipping a subtree never moves the cursor backwards, and lands at most
/// one padding past the end of the blob.
pub proof fn lemma_skip_steps_bounds(blob: Seq<u8>, soff: int, off: int, level: int)
    ensures
        skip_steps(blob, soff, off, level) matches Ok(n2) ==> off <= n2 <= blob.len() + 8,
    decreases blob.len() + 8 - off,
{
    lemma_token_step_bounds(blob, soff, off);
    match token_step(blob, soff, off) {
        TokenStep::Tok(tv, n) => match tv {
            TokenView::Begin(_) => lemma_skip_steps_bounds(blob, soff, n, level + 1),
            TokenView::End => {
                if level > 1 {
                    lemma_skip_steps_bounds(blob, soff, n, level - 1);
                }
            },
            _ => lemma_skip_steps_bounds(blob, soff, n, level),
        },
        _ => {},
    }
}

/// What one query step produces, starting at token offset `off` with the
/// expected component at `cs`:
/// - `Found(y, n, cs)`: a match was yielded; `y` is the offset of the cursor
///   handed out (just before the matching token), and `n`, `cs` are the
///   offset and component the traversal resumes from;
/// - `Exhausted(n, cs)`: no further match; the traversal stopped at `n`;
/// - `Fail`: the token stream was malformed.
pub enum PathStep {
    Found(int, int, int),
    Exhausted(int, int),
    Fail(BootError),
}

/// One step of the path query state machine over the token stream.
///
/// On a begin-node whose (optionally suffix-stripped) name matches the
/// expected component, the expectation advances; when the path is already on
/// its last component, the whole subtree is skipped and the position before
/// the begin-node is yielded. A non-matching node's subtree is skipped. An
/// end-node retreats the expectation, exhausting the query when there is no
/// previous component. A property matches when the path is on its last
/// component and the property's name equals it exactly.
pub open spec fn path_next(
    blob: Seq<u8>,
    soff: int,
    path: Seq<u8>,
    ignore: bool,
    off: int,
    cs: int,
) -> PathStep
    decreases blob.len() + 8 - off
    via path_next_decreases
{
    match token_step(blob, soff, off) {
        TokenStep::Done => PathStep::Exhausted(off, cs),
        TokenStep::Fail(e) => PathStep::Fail(e),
        TokenStep::Tok(tv, n) => match tv {
            TokenView::Begin(name) => {
                let nm = if ignore {
                    strip_addr(name)
                } else {
                    name
                };
                if nm == component_at(path, cs) {
                    match next_comp(path, cs) {
                        Some(cs2) => path_next(blob, soff, path, ignore, n, cs2),
                        None => match skip_steps(blob, soff, n, 1) {
                            Ok(n2) => PathStep::Found(off, n2, cs),
                            Err(e) => PathStep::Fail(e),
                        },
                    }
                } else {
                    match skip_steps(blob, soff, n, 1) {
                        Ok(n2) => path_next(blob, soff, path, ignore, n2, cs),
                        Err(e) => PathStep::Fail(e),
                    }
                }
            },
            TokenView::End => match prev_comp(path, cs) {
                Some(cs2) => path_next(blob, soff, path, ignore, n, cs2),
                None => PathStep::Exhausted(n, cs),
            },
            TokenView::Prop(name, _value) => {
                if next_comp(path, cs) is None && name == component_at(path, cs) {
                    PathStep::Found(off, n, cs)
                } else {
                    path_next(blob, soff, path, ignore, n, cs)
                }
            },
            TokenView::Nop => path_next(blob, soff, path, ignore, n, cs),
        },
    }
}

#[via_fn]
proof fn path_next_decreases(
    blob: Seq<u8>,
    soff: int,
    path: Seq<u8>,
    ignore: bool,
    off: int,
    cs: int,
) {
    lemma_token_step_bounds(blob, soff, off);
    match token_step(blob, soff, off) {
        TokenStep::Tok(_, n) => lemma_skip_steps_bounds(blob, soff, n, 1),
        _ => {},
    }
}

/// A yielded match sits on a decodable token, and the traversal resumes
/// strictly past where it started and at most one padding past the blob.
pub proof fn lemma_path_next_found(
    blob: Seq<u8>,
    soff: int,
    path: Seq<u8>,
    ignore: bool,
    off: int,
    cs: int,
)
    ensures
        path_next(blob, soff, path, ignore, off, cs) matches PathStep::Found(y, n2, _cs2) ==> off
            < n2 <= blob.len() + 8 && token_step(blob, soff, y) is Tok,
    decreases blob.len() + 8 - off,
{
    lemma_token_step_bounds(blob, soff, off);
    match token_step(blob, soff, off) {
        TokenStep::Tok(tv, n) => match tv {
            TokenView::Begin(name) => {
                let nm = if ignore {
                    strip_addr(name)
                } else {
                    name
                };
                if nm == component_at(path, cs) {
                    match next_comp(path, cs) {
                        Some(cs2) => lemma_path_next_found(blob, soff, path, ignore, n, cs2),
                        None => lemma_skip_steps_bounds(blob, soff, n, 1),
                    }
                } else {
                    lemma_skip_steps_bounds(blob, soff, n, 1);
                    if let Ok(n2) = skip_steps(blob, soff, n, 1) {
                        lemma_path_next_found(blob, soff, path, ignore, n2, cs);
                    }
                }
            },
            TokenView::End => {
                match prev_comp(path, cs) {
                    Some(cs2) => lemma_path_next_found(blob, soff, path, ignore, n, cs2),
                    None => {},
                }
            },
            TokenView::Prop(name, _value) => {
                if !(next_comp(path, cs) is None && name == component_at(path, cs)) {
                    lemma_path_next_found(blob, soff, path, ignore, n, cs);
                }
            },
            TokenView::Nop => lemma_path_next_found(blob, soff, path, ignore, n, cs),
        },
        _ => {},
    }
}

/// Query exactness: whatever the tree, a yielded match always sits on a
/// token that satisfies the full path — a begin-node whose (optionally
/// suffix-stripped) name, or a property whose exact name, equals the path's
/// final component — never on any other token.
pub proof fn lemma_path_next_exact(
    blob: Seq<u8>,
    soff: int,
    path: Seq<u8>,
    ignore: bool,
    off: int,
    cs: int,
)
    ensures
        path_next(blob, soff, path, ignore, off, cs) matches PathStep::Found(y, _n2, cs2)
            ==> next_comp(path, cs2) is None && match token_step(blob, soff, y) {
            TokenStep::Tok(TokenView::Begin(name), _) => (if ignore {
                strip_addr(name)
            } else {
                name
            }) == component_at(path, cs2),
            TokenStep::Tok(TokenView::Prop(name, _), _) => name == component_at(path, cs2),
            _ => false,
        },
    decreases blob.len() + 8 - off,
{
    lemma_token_step_bounds(blob, soff, off);
    match token_step(blob, soff, off) {
        TokenStep::Tok(tv, n) => match tv {
            TokenView::Begin(name) => {
                let nm = if ignore {
                    strip_addr(name)
                } else {
                    name
                };
                if nm == component_at(path, cs) {
                    match next_comp(path, cs) {
                        Some(cs2) => lemma_path_next_exact(blob, soff, path, ignore, n, cs2),
                        None => {},
                    }
                } else {
                    lemma_skip_steps_bounds(blob, soff, n, 1);
                    if let Ok(n2) = skip_steps(blob, soff, n, 1) {
                        lemma_path_next_exact(blob, soff, path, ignore, n2, cs);
                    }
                }
            },
            TokenView::End => {
                match prev_comp(path, cs) {
                    Some(cs2) => lemma_path_next_exact(blob, soff, path, ignore, n, cs2),
                    None => {},
                }
            },
            TokenView::Prop(name, _value) => {
                if !(next_comp(path, cs) is None && name == component_at(path, cs)) {
                    lemma_path_next_exact(blob, soff, path, ignore, n, cs);
                }
            },
            TokenView::Nop => lemma_path_next_exact(blob, soff, path, ignore, n, cs),
        },
        _ => {},
    }
}

/// A lazy query over the token stream for a slash-separated path: each call
/// to [`PathIter::next`] yields a restartable cursor positioned just before
/// the next matching token, in document order.
pub struct PathIter<'a> {
    /// The underlying token cursor.
    pub iter: Iter<'a>,
    /// The path expression being matched; never copied, only sliced.
    pub path: &'a [u8],
    /// Strip `@address` qualifiers off node names before comparing.
    pub ignore_addr: bool,
    /// Byte offset in `path` where the currently-expected component starts.
    pub comp: usize,
}

impl<'a> PathIter<'a> {
    /// The cursor is usable and the expected component lies within the path.
    pub open spec fn wf(self) -> bool {
        &&& self.iter.wf()
        &&& self.comp <= self.path@.len()
    }

    /// `name` with any `@address` suffix removed.
    pub fn discard_addr<'b>(name: &'b [u8]) -> (r: &'b [u8])
        ensures
            r@ == strip_addr(name@),
    {
        proof {
            lemma_byte_pos(name@, AT, 0);
        }
        let p = find_byte(name, AT, 0);
        slice_subrange(name, 0, p)
    }

    /// The first component of `path`: everything before its first slash.
    pub fn first_component(path: &'a [u8]) -> (r: &'a [u8])
        ensures
            r@ == component_at(path@, 0),
    {
        proof {
            lemma_byte_pos(path@, SLASH, 0);
        }
        let p = find_byte(path, SLASH, 0);
        slice_subrange(path, 0, p)
    }

    /// Where the currently-expected component starts within the path.
    pub fn component_offset(&self) -> (r: usize)
        ensures
            r == self.comp,
    {
        self.comp
    }

    /// The start of the component after the current one, when the path has
    /// one.
    pub fn next_component(&self) -> (r: Option<usize>)
        requires
            self.wf(),
        ensures
            match r {
                Some(cs2) => next_comp(self.path@, self.comp as int) == Some(cs2 as int),
                None => next_comp(self.path@, self.comp as int) is None,
            },
    {
        proof {
            lemma_byte_pos(self.path@, SLASH, self.comp as int);
        }
        let e = find_byte(self.path, SLASH, self.comp);
        if e == self.path.len() {
            None
        } else {
            Some(e + 1)
        }
    }

    /// The start of the component before the current one, when the current
    /// one is not the first.
    pub fn prev_component(&self) -> (r: Option<usize>)
        requires
            self.wf(),
        ensures
            match r {
                Some(cs2) => prev_comp(self.path@, self.comp as int) == Some(cs2 as int),
                None => prev_comp(self.path@, self.comp as int) is None,
            },
    {
        if self.comp == 0 {
            None
        } else {
            Some(seg_start_at(self.path, self.comp - 1))
        }
    }

    /// A query over `iter` for `path`, expecting the path's first component
    /// first. `ignore_addr` strips `@address` qualifiers off node names.
    pub fn new(iter: Iter<'a>, path: &'a [u8], ignore_addr: bool) -> (r: PathIter<'a>)
        requires
            iter.wf(),
        ensures
            r.wf(),
            r.iter == iter,
            r.path@ == path@,
            r.ignore_addr == ignore_addr,
            r.comp == 0,
    {
        PathIter { iter, path, ignore_addr, comp: 0 }
    }

    /// Advances the cursor just past the node whose begin-node token was
    /// just consumed, tracking nested begin/end pairs.
    fn skip_node(&mut self) -> (r: Result<(), BootError>)
        requires
            old(self).wf(),
        ensures
            final(self).wf(),
            final(self).path@ == old(self).path@,
            final(self).comp == old(self).comp,
            final(self).ignore_addr == old(self).ignore_addr,
            final(self).iter.blob@ == old(self).iter.blob@,
            final(self).iter.soff == old(self).iter.soff,
            match skip_steps(
                old(self).iter.blob@,
                old(self).iter.soff as int,
                old(self).iter.off as int,
                1,
            ) {
                Ok(n2) => r is Ok && final(self).iter.off == n2,
                Err(e) => r == Err::<(), BootError>(e),
            },
    {
        let ghost blob = self.iter.blob@;
        let ghost soff = self.iter.soff as int;
        let ghost start = self.iter.off as int;
        let mut level: usize = 1;
        loop
            invariant
                self.wf(),
                self.path@ == old(self).path@,
                self.comp == old(self).comp,
                self.ignore_addr == old(self).ignore_addr,
                self.iter.blob@ == blob,
                self.iter.soff as int == soff,
                blob == old(self).iter.blob@,
                soff == old(self).iter.soff as int,
                start == old(self).iter.off as int,
                level >= 1,
                4 * (level as int) <= self.iter.off - start + 4,
                skip_steps(blob, soff, start, 1) == skip_steps(
                    blob,
                    soff,
                    self.iter.off as int,
                    level as int,
                ),
            decreases blob.len() + 8 - self.iter.off,
        {
            let ghost cur = self.iter.off as int;
            proof {
                lemma_token_step_bounds(blob, soff, cur);
            }
            match self.iter.next() {
                Err(e) => {
                    return Err(e);
                },
                Ok(None) => {
                    return Ok(());
                },
                Ok(Some(t)) => {
                    match t {
                        Token::BeginNode { name: _ } => {
                            level = level + 1;
                        },
                        Token::EndNode => {
                            if level == 1 {
                                return Ok(());
                            }
                            level = level - 1;
                        },
                        _ => {},
                    }
                },
            }
        }
    }

    /// Yields the cursor positioned just before the next token matching the
    /// path, or `Ok(None)` when the query is exhausted. Fails when the token
    /// stream is malformed.
    pub fn next(&mut self) -> (r: Result<Option<Iter<'a>>, BootError>)
        requires
            old(self).wf(),
        ensures
            final(self).wf(),
            final(self).path@ == old(self).path@,
            final(self).ignore_addr == old(self).ignore_addr,
            final(self).iter.blob@ == old(self).iter.blob@,
            final(self).iter.soff == old(self).iter.soff,
            match path_next(
                old(self).iter.blob@,
                old(self).iter.soff as int,
                old(self).path@,
                old(self).ignore_addr,
                old(self).iter.off as int,
                old(self).comp as int,
            ) {
                PathStep::Found(y, n2, cs2) => {
                    &&& r matches Ok(Some(it))
                    &&& it.blob@ == old(self).iter.blob@
                    &&& it.soff == old(self).iter.soff
                    &&& it.off == y
                    &&& it.wf()
                    &&& final(self).iter.off == n2
                    &&& final(self).comp == cs2
                },
                PathStep::Exhausted(n, cs2) => {
                    &&& r == Ok::<Option<Iter<'a>>, BootError>(None)
                    &&& final(self).iter.off == n
                    &&& final(self).comp == cs2
                },
                PathStep::Fail(e) => r == Err::<Option<Iter<'a>>, BootError>(e),
            },
    {
        let ghost blob = self.iter.blob@;
        let ghost soff = self.iter.soff as int;
        let ghost path = self.path@;
        let ghost ig = self.ignore_addr;
        let ghost off0 = self.iter.off as int;
        let ghost cs0 = self.comp as int;
        loop
            invariant
                self.wf(),
                self.path@ == path,
                self.ignore_addr == ig,
                self.iter.blob@ == blob,
                self.iter.soff as int == soff,
                blob == old(self).iter.blob@,
                soff == old(self).iter.soff as int,
                path == old(self).path@,
                ig == old(self).ignore_addr,
                off0 == old(self).iter.off as int,
                cs0 == old(self).comp as int,
                path_next(blob, soff, path, ig, off0, cs0) == path_next(
                    blob,
                    soff,
                    path,
                    ig,
                    self.iter.off as int,
                    self.comp as int,
                ),
            decreases blob.len() + 8 - self.iter.off,
        {
            let ghost cur = self.iter.off as int;
            let ghost ccs = self.comp as int;
            proof {
                lemma_token_step_bounds(blob, soff, cur);
            }
            let prev = self.iter;
            match self.iter.next() {
                Err(e) => {
                    return Err(e);
                },
                Ok(None) => {
                    return Ok(None);
                },
                Ok(Some(t)) => {
                    match t {
                        Token::BeginNode { name } => {
                            let name = if self.ignore_addr {
                                Self::discard_addr(name)
                            } else {
                                name
                            };
                            proof {
                                lemma_byte_pos(path, SLASH, ccs);
                            }
                            let ce = find_byte(self.path, SLASH, self.comp);
                            let comp_slice = slice_subrange(self.path, self.comp, ce);
                            if bytes_eq(name, comp_slice) {
                                if ce == self.path.len() {
                                    proof {
                                        lemma_skip_steps_bounds(
                                            blob,
                                            soff,
                                            self.iter.off as int,
                                            1,
                                        );
                                    }
                                    match self.skip_node() {
                                        Ok(()) => {
                                            return Ok(Some(prev));
                                        },
                                        Err(e) => {
                                            return Err(e);
                                        },
                                    }
                                } else {
                                    self.comp = ce + 1;
                                }
                            } else {
                                proof {
                                    lemma_skip_steps_bounds(blob, soff, self.iter.off as int, 1);
                                }
                                match self.skip_node() {
                                    Ok(()) => {
                                    },
                                    Err(e) => {
                                        return Err(e);
                                    },
                                }
                            }
                        },
                        Token::EndNode => {
                            if self.comp == 0 {
                                return Ok(None);
                            }
                            let cs2 = seg_start_at(self.path, self.comp - 1);
                            self.comp = cs2;
                        },
                        Token::Property { name, value: _ } => {
                            proof {
                                lemma_byte_pos(path, SLASH, ccs);
                            }
                            let ce = find_byte(self.path, SLASH, self.comp);
                            if ce == self.path.len() {
                                let comp_slice = slice_subrange(self.path, self.comp, ce);
                                if bytes_eq(name, comp_slice) {
                                    return Ok(Some(prev));
                                }
                            }
                        },
                        Token::Nop => {
                        },
                    }
                },
            }
        }
    }
}

/// The start of the slash-delimited segment whose last byte sits just
/// before position `t`.
fn seg_start_at(path: &[u8], t: usize) -> (r: usize)
    requires
        t <= path@.len(),
    ensures
        r == seg_start(path@, t as int),
        r <= t,
{
    let mut k = t;
    while k > 0
        invariant
            k <= t,
            t <= path@.len(),
            seg_start(path@, t as int) == seg_start(path@, k as int),
        decreases k,
    {
        if path[k - 1] == SLASH {
            return k;
        }
        k = k - 1;
    }
    k
}

} // verus!
