//! Skyline rectangle packing for square glyph atlas pages.
//!
//! The skyline is a run of horizontal segments that together cover the page
//! width exactly; each segment records how high the page is filled over its
//! columns. An allocation is placed on top of the segments it spans, so it can
//! never overlap an earlier allocation.

use vstd::prelude::*;

verus! {

/// One segment of the skyline: columns `x .. x + width` are filled up to `y`.
#[derive(Debug, Clone, Copy)]
pub struct SkylineNode {
    pub x: u32,
    pub y: u32,
    pub width: u32,
}

/// The column just past a segment.
pub open spec fn node_end(n: SkylineNode) -> int {
    n.x + n.width
}

/// The segments follow each other without gap or overlap, from `start` to `end`.
pub open spec fn spans(s: Seq<SkylineNode>, start: int, end: int) -> bool
    decreases s.len(),
{
    if s.len() == 0 {
        start == end
    } else {
        s[0].x == start && spans(s.drop_first(), node_end(s[0]), end)
    }
}

/// The fill height of column `c`: the height of the first segment holding it.
pub open spec fn height_at(s: Seq<SkylineNode>, c: int) -> int
    decreases s.len(),
{
    if s.len() == 0 {
        0
    } else if s[0].x <= c < node_end(s[0]) {
        s[0].y as int
    } else {
        height_at(s.drop_first(), c)
    }
}

/// Placing a block `height` high over the next `remaining` columns of `s`,
/// given that it already has to stand at least at `y`: the height it stands
/// at, or `None` when it would rise above `size` or run past the segments.
pub open spec fn fit_seq(s: Seq<SkylineNode>, y: int, remaining: int, height: int, size: int) -> Option<int>
    decreases s.len(),
{
    if remaining <= 0 {
        Some(y)
    } else if s.len() == 0 {
        None
    } else {
        let raised = if s[0].y > y {
            s[0].y as int
        } else {
            y
        };
        if raised + height > size {
            None
        } else {
            fit_seq(s.drop_first(), raised, remaining - s[0].width, height, size)
        }
    }
}

/// Where a `width` x `height` block starting at segment `index` would stand.
pub open spec fn fit_at(s: Seq<SkylineNode>, index: int, width: int, height: int, size: int) -> Option<int> {
    if s[index].x + width > size {
        None
    } else {
        fit_seq(s.skip(index), s[index].y as int, width, height, size)
    }
}

/// The best placement among the first `k` segments: lowest height, then
/// leftmost, then earliest segment; as (segment index, y, x).
pub open spec fn best_fit(s: Seq<SkylineNode>, k: int, width: int, height: int, size: int) -> Option<
    (int, int, int),
>
    decreases k,
{
    if k <= 0 {
        None
    } else {
        let previous = best_fit(s, k - 1, width, height, size);
        match fit_at(s, k - 1, width, height, size) {
            None => previous,
            Some(y) => {
                let x = s[k - 1].x as int;
                match previous {
                    None => Some((k - 1, y, x)),
                    Some((i, best_y, best_x)) => if y < best_y || (y == best_y && x < best_x) {
                        Some((k - 1, y, x))
                    } else {
                        previous
                    },
                }
            },
        }
    }
}

/// The segments left of `right` cut away: wholly covered ones dropped, a
/// partly covered one shortened to start at `right`.
pub open spec fn cut_to(s: Seq<SkylineNode>, right: int) -> Seq<SkylineNode>
    decreases s.len(),
{
    if s.len() == 0 {
        s
    } else if s[0].x >= right {
        s
    } else if s[0].width <= right - s[0].x {
        cut_to(s.drop_first(), right)
    } else {
        seq![SkylineNode { x: right as u32, y: s[0].y, width: (node_end(s[0]) - right) as u32 }]
            + s.drop_first()
    }
}

/// The skyline after a block was placed at `(x, y)` on segment `index`.
pub open spec fn carved(s: Seq<SkylineNode>, index: int, x: int, top: int, width: int) -> Seq<SkylineNode> {
    s.take(index) + seq![SkylineNode { x: x as u32, y: top as u32, width: width as u32 }] + cut_to(
        s.skip(index),
        x + width,
    )
}

/// Neighbouring segments of equal height joined into one.
pub open spec fn merged(s: Seq<SkylineNode>) -> Seq<SkylineNode>
    decreases s.len(),
{
    if s.len() == 0 {
        s
    } else {
        let m = merged(s.drop_last());
        let n = s.last();
        if m.len() > 0 && m.last().y == n.y {
            m.drop_last().push(
                SkylineNode { x: m.last().x, y: n.y, width: (m.last().width + n.width) as u32 },
            )
        } else {
            m.push(n)
        }
    }
}

pub proof fn lemma_spans_bounds(s: Seq<SkylineNode>, start: int, end: int)
    requires
        spans(s, start, end),
    ensures
        start <= end,
        forall|i: int| 0 <= i < s.len() ==> start <= #[trigger] s[i].x && node_end(s[i]) <= end,
    decreases s.len(),
{
    if s.len() > 0 {
        lemma_spans_bounds(s.drop_first(), node_end(s[0]), end);
        assert forall|i: int| 0 <= i < s.len() implies start <= #[trigger] s[i].x && node_end(s[i])
            <= end by {
            if i > 0 {
                assert(s[i] == s.drop_first()[i - 1]);
            }
        }
    }
}

pub proof fn lemma_spans_concat(a: Seq<SkylineNode>, b: Seq<SkylineNode>, start: int, mid: int, end: int)
    requires
        spans(a, start, mid),
        spans(b, mid, end),
    ensures
        spans(a + b, start, end),
    decreases a.len(),
{
    if a.len() == 0 {
        assert(a + b =~= b);
    } else {
        lemma_spans_concat(a.drop_first(), b, node_end(a[0]), mid, end);
        assert((a + b).drop_first() =~= a.drop_first() + b);
    }
}

/// Where the segments of `a`, laid from `start`, end.
pub open spec fn span_end(a: Seq<SkylineNode>, start: int) -> int {
    if a.len() == 0 {
        start
    } else {
        node_end(a.last())
    }
}

pub proof fn lemma_spans_split(a: Seq<SkylineNode>, b: Seq<SkylineNode>, start: int, end: int)
    requires
        spans(a + b, start, end),
    ensures
        spans(a, start, span_end(a, start)),
        spans(b, span_end(a, start), end),
    decreases a.len(),
{
    if a.len() == 0 {
        assert(a + b =~= b);
    } else {
        assert((a + b).drop_first() =~= a.drop_first() + b);
        lemma_spans_split(a.drop_first(), b, node_end(a[0]), end);
        if a.len() > 1 {
            assert(a.drop_first().last() == a.last());
        }
    }
}

/// Heights over the concatenation of two runs, the first spanning `start .. mid`.
pub proof fn lemma_height_concat(a: Seq<SkylineNode>, b: Seq<SkylineNode>, start: int, mid: int, c: int)
    requires
        spans(a, start, mid),
    ensures
        height_at(a + b, c) == if start <= c < mid {
            height_at(a, c)
        } else {
            height_at(b, c)
        },
    decreases a.len(),
{
    if a.len() == 0 {
        assert(a + b =~= b);
    } else {
        lemma_spans_bounds(a.drop_first(), node_end(a[0]), mid);
        assert((a + b).drop_first() =~= a.drop_first() + b);
        assert((a + b)[0] == a[0]);
        lemma_height_concat(a.drop_first(), b, node_end(a[0]), mid, c);
    }
}

/// A run holds no column outside its span.
pub proof fn lemma_height_outside(s: Seq<SkylineNode>, start: int, end: int, c: int)
    requires
        spans(s, start, end),
        c < start || c >= end,
    ensures
        height_at(s, c) == 0,
    decreases s.len(),
{
    if s.len() > 0 {
        lemma_spans_bounds(s.drop_first(), node_end(s[0]), end);
        lemma_height_outside(s.drop_first(), node_end(s[0]), end, c);
    }
}

/// A successful fit stands at least at the given height, clears every
/// column it covers, and stays on the page.
pub proof fn lemma_fit_seq(
    s: Seq<SkylineNode>,
    start: int,
    end: int,
    y: int,
    remaining: int,
    height: int,
    size: int,
)
    requires
        spans(s, start, end),
        fit_seq(s, y, remaining, height, size) is Some,
    ensures
        fit_seq(s, y, remaining, height, size)->0 >= y,
        forall|c: int|
            start <= c < start + remaining ==> #[trigger] height_at(s, c) <= fit_seq(
                s,
                y,
                remaining,
                height,
                size,
            )->0,
        remaining > 0 ==> fit_seq(s, y, remaining, height, size)->0 + height <= size,
        remaining > 0 ==> start + remaining <= end,
    decreases s.len(),
{
    if remaining > 0 {
        let raised = if s[0].y > y {
            s[0].y as int
        } else {
            y
        };
        let next = node_end(s[0]);
        lemma_spans_bounds(s, start, end);
        lemma_fit_seq(s.drop_first(), next, end, raised, remaining - s[0].width, height, size);
        let r = fit_seq(s, y, remaining, height, size)->0;
        assert forall|c: int| start <= c < start + remaining implies #[trigger] height_at(s, c) <= r by {
            if c >= next {
                assert(height_at(s, c) == height_at(s.drop_first(), c));
            }
        }
    }
}

/// Cutting a run at `right` keeps its heights right of `right` and spans
/// from `right`.
pub proof fn lemma_cut_to(s: Seq<SkylineNode>, start: int, end: int, right: int)
    requires
        spans(s, start, end),
        start <= right <= end,
        end <= u32::MAX,
    ensures
        spans(cut_to(s, right), right, end),
        forall|c: int| right <= c ==> #[trigger] height_at(cut_to(s, right), c) == height_at(s, c),
    decreases s.len(),
{
    if s.len() > 0 {
        lemma_spans_bounds(s, start, end);
        lemma_spans_bounds(s.drop_first(), node_end(s[0]), end);
        if s[0].x >= right {
        } else if s[0].width <= right - s[0].x {
            lemma_cut_to(s.drop_first(), node_end(s[0]), end, right);
        } else {
            let head = SkylineNode { x: right as u32, y: s[0].y, width: (node_end(s[0]) - right) as u32 };
            let t = seq![head] + s.drop_first();
            assert(t.drop_first() =~= s.drop_first());
            assert(cut_to(s, right) == t);
            assert forall|c: int| right <= c implies #[trigger] height_at(cut_to(s, right), c)
                == height_at(s, c) by {
                assert(t[0] == head);
            }
        }
    }
}

/// Joining equal neighbours keeps the span and every column's height.
pub proof fn lemma_merged(s: Seq<SkylineNode>, start: int, end: int)
    requires
        spans(s, start, end),
        end <= u32::MAX,
    ensures
        spans(merged(s), start, end),
        forall|c: int| #[trigger] height_at(merged(s), c) == height_at(s, c),
    decreases s.len(),
{
    if s.len() > 0 {
        let t = s.drop_last();
        let n = s.last();
        assert(s =~= t + seq![n]);
        lemma_spans_split(t, seq![n], start, end);
        let mid = span_end(t, start);
        assert(seq![n].drop_first() =~= Seq::<SkylineNode>::empty());
        assert(n.x == mid && node_end(n) == end) by {
            reveal_with_fuel(spans, 2);
        }
        lemma_merged(t, start, mid);
        let m = merged(t);
        lemma_spans_bounds(s, start, end);
        if m.len() > 0 && m.last().y == n.y {
            let p = m.drop_last();
            let l = m.last();
            assert(m =~= p + seq![l]);
            lemma_spans_split(p, seq![l], start, mid);
            let pm = span_end(p, start);
            assert(seq![l].drop_first() =~= Seq::<SkylineNode>::empty());
            assert(l.x == pm && node_end(l) == mid) by {
                reveal_with_fuel(spans, 2);
            }
            lemma_spans_bounds(p, start, pm);
            let joined = SkylineNode { x: l.x, y: n.y, width: (l.width + n.width) as u32 };
            assert(merged(s) == p.push(joined));
            assert(p.push(joined) =~= p + seq![joined]);
            assert(spans(seq![joined], pm, end)) by {
                assert(seq![joined].drop_first() =~= Seq::<SkylineNode>::empty());
            }
            lemma_spans_concat(p, seq![joined], start, pm, end);
            assert forall|c: int| #[trigger] height_at(merged(s), c) == height_at(s, c) by {
                lemma_height_concat(p, seq![joined], start, pm, c);
                lemma_height_concat(p, seq![l], start, pm, c);
                lemma_height_concat(t, seq![n], start, mid, c);
                assert(seq![joined].drop_first() =~= Seq::<SkylineNode>::empty());
                assert(seq![l].drop_first() =~= Seq::<SkylineNode>::empty());
                assert(seq![n].drop_first() =~= Seq::<SkylineNode>::empty());
                if !(start <= c < pm) && !(start <= c < mid) {
                    lemma_height_outside(t, start, mid, c);
                }
            }
        } else {
            assert(merged(s) == m.push(n));
            assert(m.push(n) =~= m + seq![n]);
            lemma_spans_concat(m, seq![n], start, mid, end);
            assert forall|c: int| #[trigger] height_at(merged(s), c) == height_at(s, c) by {
                lemma_height_concat(m, seq![n], start, mid, c);
                lemma_height_concat(t, seq![n], start, mid, c);
            }
        }
    }
}

pub proof fn lemma_best_fit(s: Seq<SkylineNode>, k: int, width: int, height: int, size: int)
    requires
        k <= s.len(),
        best_fit(s, k, width, height, size) is Some,
    ensures
        ({
            let (i, y, x) = best_fit(s, k, width, height, size)->0;
            &&& 0 <= i < k
            &&& fit_at(s, i, width, height, size) == Some(y)
            &&& x == s[i].x
        }),
    decreases k,
{
    if k > 0 && best_fit(s, k - 1, width, height, size) is Some {
        lemma_best_fit(s, k - 1, width, height, size);
    }
}

/// The segments from `index` on start where segment `index` does, and the
/// heights from there on are theirs.
pub proof fn lemma_split_at(s: Seq<SkylineNode>, size: int, index: int)
    requires
        spans(s, 0, size),
        0 <= index < s.len(),
    ensures
        spans(s.take(index), 0, s[index].x as int),
        spans(s.skip(index), s[index].x as int, size),
        forall|c: int|
            #![trigger height_at(s, c)]
            s[index].x <= c ==> height_at(s, c) == height_at(s.skip(index), c),
        forall|c: int|
            #![trigger height_at(s, c)]
            c < s[index].x ==> height_at(s, c) == height_at(s.take(index), c),
{
    assert(s =~= s.take(index) + s.skip(index));
    lemma_spans_split(s.take(index), s.skip(index), 0, size);
    let mid = span_end(s.take(index), 0);
    assert(s.skip(index)[0] == s[index]);
    assert forall|c: int| #![trigger height_at(s, c)] s[index].x <= c implies height_at(s, c)
        == height_at(s.skip(index), c) by {
        lemma_height_concat(s.take(index), s.skip(index), 0, mid, c);
    }
    assert forall|c: int| #![trigger height_at(s, c)] c < s[index].x implies height_at(s, c)
        == height_at(s.take(index), c) by {
        lemma_height_concat(s.take(index), s.skip(index), 0, mid, c);
        assert(mid == s[index].x);
        if c < 0 {
            lemma_height_outside(s.take(index), 0, mid, c);
            lemma_height_outside(s.skip(index), mid, size, c);
        }
    }
}

/// A fit at segment `index` clears every column the block covers and keeps
/// a block of positive width on the page.
pub proof fn lemma_fit_at(s: Seq<SkylineNode>, size: int, index: int, width: int, height: int)
    requires
        spans(s, 0, size),
        0 <= index < s.len(),
        width >= 0,
        fit_at(s, index, width, height, size) is Some,
    ensures
        s[index].x + width <= size,
        forall|c: int|
            s[index].x <= c < s[index].x + width ==> #[trigger] height_at(s, c) <= fit_at(
                s,
                index,
                width,
                height,
                size,
            )->0,
        width > 0 ==> fit_at(s, index, width, height, size)->0 + height <= size,
        fit_at(s, index, width, height, size)->0 >= s[index].y,
{
    lemma_split_at(s, size, index);
    lemma_fit_seq(s.skip(index), s[index].x as int, size, s[index].y as int, width, height, size);
}

/// The skyline after a placement: raised to `top` over the block's columns,
/// unchanged elsewhere.
pub proof fn lemma_carved(s: Seq<SkylineNode>, size: int, index: int, width: int, top: int)
    requires
        spans(s, 0, size),
        size <= u32::MAX,
        0 <= index < s.len(),
        0 <= width,
        s[index].x + width <= size,
        0 <= top <= u32::MAX,
    ensures
        spans(carved(s, index, s[index].x as int, top, width), 0, size),
        forall|c: int|
            0 <= c < size ==> #[trigger] height_at(carved(s, index, s[index].x as int, top, width), c)
                == if s[index].x <= c < s[index].x + width {
                top
            } else {
                height_at(s, c)
            },
{
    let x = s[index].x as int;
    let right = x + width;
    lemma_split_at(s, size, index);
    let pre = s.take(index);
    let rest = s.skip(index);
    let block = SkylineNode { x: x as u32, y: top as u32, width: width as u32 };
    lemma_cut_to(rest, x, size, right);
    let cut = cut_to(rest, right);
    assert(spans(seq![block], x, right)) by {
        reveal_with_fuel(spans, 2);
        assert(seq![block].drop_first() =~= Seq::<SkylineNode>::empty());
    }
    lemma_spans_concat(seq![block], cut, x, right, size);
    lemma_spans_concat(pre, seq![block] + cut, 0, x, size);
    let c_all = carved(s, index, x, top, width);
    assert(c_all =~= pre + (seq![block] + cut));
    assert forall|c: int| 0 <= c < size implies #[trigger] height_at(c_all, c) == if x <= c < right {
        top
    } else {
        height_at(s, c)
    } by {
        lemma_height_concat(pre, seq![block] + cut, 0, x, c);
        lemma_height_concat(seq![block], cut, x, right, c);
        assert(seq![block].drop_first() =~= Seq::<SkylineNode>::empty());
    }
}

/// A placed block: column, row, width, height.
pub type Placement = (int, int, int, int);

/// Two blocks share no pixel; an empty block shares none with anything.
pub open spec fn disjoint(a: Placement, b: Placement) -> bool {
    ||| a.2 == 0 || a.3 == 0 || b.2 == 0 || b.3 == 0
    ||| a.0 + a.2 <= b.0 || b.0 + b.2 <= a.0
    ||| a.1 + a.3 <= b.1 || b.1 + b.3 <= a.1
}

/// A block of positive width lies on the page under the skyline.
pub open spec fn settled(p: Placement, nodes: Seq<SkylineNode>, size: int) -> bool {
    &&& 0 <= p.0 && 0 <= p.1 && 0 <= p.2 && 0 <= p.3
    &&& p.0 + p.2 <= size
    &&& p.2 > 0 ==> p.1 + p.3 <= size
    &&& forall|c: int| p.0 <= c < p.0 + p.2 ==> p.1 + p.3 <= #[trigger] height_at(nodes, c)
}

/// A skyline packer for a square page of `size` pixels.
pub struct SkylineAllocator {
    size: u32,
    nodes: Vec<SkylineNode>,
    placed: Ghost<Seq<Placement>>,
}

impl SkylineAllocator {
    pub closed spec fn size(&self) -> nat {
        self.size as nat
    }

    /// The skyline segments, left to right.
    pub closed spec fn nodes(&self) -> Seq<SkylineNode> {
        self.nodes@
    }

    /// Every block handed out so far, in order.
    pub closed spec fn placed(&self) -> Seq<Placement> {
        self.placed@
    }

    pub open spec fn well_formed(&self) -> bool {
        &&& self.size() <= u32::MAX
        &&& self.nodes().len() > 0
        &&& spans(self.nodes(), 0, self.size() as int)
        &&& forall|k: int| 0 <= k < self.placed().len() ==> settled(#[trigger] self.placed()[k], self.nodes(), self.size() as int)
        &&& forall|i: int, j: int|
            0 <= i < self.placed().len() && 0 <= j < self.placed().len() && i != j ==> disjoint(
                #[trigger] self.placed()[i],
                #[trigger] self.placed()[j],
            )
    }

    /// An empty page: one segment at height zero over the whole width.
    pub fn new(size: u32) -> (r: Self)
        ensures
            r.well_formed(),
            r.size() == size,
            r.nodes() == seq![SkylineNode { x: 0, y: 0, width: size }],
            r.placed().len() == 0,
    {
        let nodes = vec![SkylineNode { x: 0, y: 0, width: size }];
        let r = SkylineAllocator { size, nodes, placed: Ghost(Seq::empty()) };
        proof {
            assert(r.nodes() =~= seq![SkylineNode { x: 0, y: 0, width: size }]);
            assert(spans(r.nodes(), 0, size as int)) by {
                reveal_with_fuel(spans, 2);
                assert(r.nodes().drop_first() =~= Seq::<SkylineNode>::empty());
            }
        }
        r
    }

    /// Where a `width` x `height` block starting at segment `index` would stand.
    fn fit(&self, index: usize, width: u32, height: u32) -> (r: Option<u32>)
        requires
            index < self.nodes().len(),
        ensures
            match r {
                Some(y) => fit_at(self.nodes(), index as int, width as int, height as int, self.size() as int)
                    == Some(y as int),
                None => fit_at(self.nodes(), index as int, width as int, height as int, self.size() as int) is None,
            },
    {
        let ghost s = self.nodes@;
        let ghost size = self.size as int;
        let x = self.nodes[index].x;
        match x.checked_add(width) {
            None => {
                return None;
            },
            Some(end) => {
                if end > self.size {
                    return None;
                }
            },
        }
        let mut y = self.nodes[index].y;
        let mut remaining = width;
        let mut cursor = index;
        while remaining > 0
            invariant
                s == self.nodes@,
                size == self.size,
                index <= cursor <= s.len(),
                s[index as int].x + width <= size,
                fit_at(s, index as int, width as int, height as int, size) == fit_seq(
                    s.skip(cursor as int),
                    y as int,
                    remaining as int,
                    height as int,
                    size,
                ),
            decreases s.len() - cursor,
        {
            if cursor >= self.nodes.len() {
                assert(s.skip(cursor as int) =~= Seq::<SkylineNode>::empty());
                return None;
            }
            let node = self.nodes[cursor];
            let ghost rest = s.skip(cursor as int);
            let ghost y_before = y as int;
            let ghost remaining_before = remaining as int;
            assert(rest[0] == node);
            assert(rest.drop_first() =~= s.skip(cursor + 1));
            if node.y > y {
                y = node.y;
            }
            match y.checked_add(height) {
                None => {
                    return None;
                },
                Some(top) => {
                    if top > self.size {
                        return None;
                    }
                },
            }
            assert(fit_seq(rest, y_before, remaining_before, height as int, size) == fit_seq(
                rest.drop_first(),
                y as int,
                remaining_before - node.width,
                height as int,
                size,
            ));
            remaining = if remaining > node.width {
                remaining - node.width
            } else {
                0
            };
            assert(fit_seq(rest.drop_first(), y as int, remaining_before - node.width, height as int, size)
                == fit_seq(rest.drop_first(), y as int, remaining as int, height as int, size));
            cursor = cursor + 1;
        }
        Some(y)
    }

    /// Places a `width` x `height` block at the lowest, then leftmost,
    /// position where it fits and returns its top-left corner; `None` when it
    /// fits nowhere, with the skyline unchanged.
    pub fn allocate(&mut self, width: u32, height: u32) -> (r: Option<(u32, u32)>)
        requires
            old(self).well_formed(),
            match best_fit(old(self).nodes(), old(self).nodes().len() as int, width as int, height as int, old(self).size() as int) {
                Some((_, y, _)) => y + height <= u32::MAX,
                None => true,
            },
        ensures
            final(self).well_formed(),
            final(self).size() == old(self).size(),
            match best_fit(old(self).nodes(), old(self).nodes().len() as int, width as int, height as int, old(self).size() as int) {
                None => {
                    &&& r is None
                    &&& final(self).nodes() == old(self).nodes()
                    &&& final(self).placed() == old(self).placed()
                },
                Some((i, y, x)) => {
                    &&& r == Some((x as u32, y as u32))
                    &&& final(self).nodes() == merged(carved(old(self).nodes(), i, x, y + height, width as int))
                    &&& final(self).placed() == old(self).placed().push((x, y, width as int, height as int))
                },
            },
            r matches Some((x, y)) ==> x + width <= old(self).size() && (width > 0 ==> y + height <= old(self).size()),
            r matches Some((x, y)) ==> forall|k: int| 0 <= k < old(self).placed().len() ==> disjoint(
                (x as int, y as int, width as int, height as int),
                #[trigger] old(self).placed()[k],
            ),
            r matches Some((x, y)) ==> forall|c: int|
                0 <= c < old(self).size() ==> #[trigger] height_at(final(self).nodes(), c) == if x <= c < x + width {
                    y + height
                } else {
                    height_at(old(self).nodes(), c)
                },
    {
        let ghost s = self.nodes@;
        let ghost size = self.size as int;
        let n = self.nodes.len();
        let mut best: Option<(usize, u32, u32)> = None;
        let mut index: usize = 0;
        while index < n
            invariant
                s == self.nodes@,
                size == self.size,
                n == s.len(),
                index <= n,
                match best {
                    None => best_fit(s, index as int, width as int, height as int, size) is None,
                    Some((i, y, x)) => best_fit(s, index as int, width as int, height as int, size)
                        == Some((i as int, y as int, x as int)),
                },
            decreases n - index,
        {
            match self.fit(index, width, height) {
                Some(y) => {
                    let x = self.nodes[index].x;
                    let better = match best {
                        None => true,
                        Some((_, best_y, best_x)) => y < best_y || (y == best_y && x < best_x),
                    };
                    if better {
                        best = Some((index, y, x));
                    }
                },
                None => {},
            }
            index = index + 1;
        }
        let (index, y, x) = match best {
            None => {
                return None;
            },
            Some(found) => found,
        };
        proof {
            lemma_best_fit(s, n as int, width as int, height as int, size);
            lemma_fit_at(s, size, index as int, width as int, height as int);
        }
        let top = y + height;
        let right = x + width;
        let carved_nodes = self.carve(index, x, top, width);
        proof {
            lemma_carved(s, size, index as int, width as int, top as int);
        }
        let nodes = Self::merge(carved_nodes, self.size);
        let ghost old_placed = self.placed@;
        let ghost block: Placement = (x as int, y as int, width as int, height as int);
        proof {
            lemma_merged(carved(s, index as int, x as int, top as int, width as int), 0, size);
            let fresh = merged(carved(s, index as int, x as int, top as int, width as int));
            assert forall|c: int| 0 <= c < size implies #[trigger] height_at(fresh, c) == if x <= c < x + width {
                top as int
            } else {
                height_at(s, c)
            } by {
                assert(height_at(fresh, c) == height_at(carved(s, index as int, x as int, top as int, width as int), c));
            }
            assert forall|c: int| 0 <= c < size implies height_at(s, c) <= #[trigger] height_at(fresh, c) by {
                if x <= c < x + width {
                    assert(height_at(s, c) <= y);
                }
            }
            let placed = old_placed.push(block);
            assert forall|k: int| 0 <= k < placed.len() implies settled(#[trigger] placed[k], fresh, size) by {
                if k < old_placed.len() {
                    assert(placed[k] == old_placed[k]);
                    assert(settled(old_placed[k], s, size));
                    let p = old_placed[k];
                    assert forall|c: int| p.0 <= c < p.0 + p.2 implies p.1 + p.3 <= #[trigger] height_at(fresh, c) by {
                        assert(p.1 + p.3 <= height_at(s, c));
                        assert(height_at(s, c) <= height_at(fresh, c));
                    }
                } else {
                    assert(placed[k] == block);
                    assert forall|c: int| block.0 <= c < block.0 + block.2 implies block.1 + block.3 <= #[trigger] height_at(fresh, c) by {
                        assert(height_at(fresh, c) == top);
                    }
                }
            }
            assert forall|k: int| 0 <= k < old_placed.len() implies disjoint(block, #[trigger] old_placed[k]) by {
                let p = old_placed[k];
                assert(settled(p, s, size));
                if block.2 > 0 && block.3 > 0 && p.2 > 0 && p.3 > 0 && !(block.0 + block.2 <= p.0)
                    && !(p.0 + p.2 <= block.0) {
                    let c = if p.0 > block.0 {
                        p.0
                    } else {
                        block.0
                    };
                    assert(p.1 + p.3 <= height_at(s, c));
                    assert(height_at(s, c) <= y);
                }
            }
            assert forall|i: int, j: int|
                0 <= i < placed.len() && 0 <= j < placed.len() && i != j implies disjoint(
                #[trigger] placed[i],
                #[trigger] placed[j],
            ) by {
                if i < old_placed.len() && j < old_placed.len() {
                    assert(placed[i] == old_placed[i] && placed[j] == old_placed[j]);
                } else if i == old_placed.len() {
                    assert(placed[i] == block && placed[j] == old_placed[j]);
                } else {
                    assert(placed[j] == block && placed[i] == old_placed[i]);
                    assert(disjoint(block, old_placed[i]));
                }
            }
            assert(carved(s, index as int, x as int, top as int, width as int).len() > 0);
            assert(fresh.len() > 0);
        }
        self.nodes = nodes;
        self.placed = Ghost(self.placed@.push(block));
        Some((x, y))
    }

    /// The segments with a block of `width` standing `top` high inserted at
    /// segment `index`, and the segments it covers cut away.
    fn carve(&self, index: usize, x: u32, top: u32, width: u32) -> (r: Vec<SkylineNode>)
        requires
            index < self.nodes().len(),
            x == self.nodes()[index as int].x,
            x + width <= self.size(),
            spans(self.nodes(), 0, self.size() as int),
        ensures
            r@ == carved(self.nodes(), index as int, x as int, top as int, width as int),
    {
        let ghost s = self.nodes@;
        let n = self.nodes.len();
        let right = x + width;
        let mut out: Vec<SkylineNode> = Vec::new();
        let mut i: usize = 0;
        while i < index
            invariant
                s == self.nodes@,
                n == s.len(),
                i <= index < n,
                out@ == s.take(i as int),
            decreases index - i,
        {
            out.push(self.nodes[i]);
            proof {
                assert(s.take(i + 1) =~= s.take(i as int).push(s[i as int]));
            }
            i = i + 1;
        }
        let block = SkylineNode { x, y: top, width };
        out.push(block);
        let ghost head = out@;
        let ghost target = carved(s, index as int, x as int, top as int, width as int);
        proof {
            assert(head =~= s.take(index as int) + seq![block]);
        }
        let mut cursor = index;
        let mut done = false;
        while cursor < n && !done
            invariant
                s == self.nodes@,
                n == s.len(),
                index <= cursor <= n,
                right == x + width,
                target == head + cut_to(s.skip(index as int), right as int),
                !done ==> out@ == head && cut_to(s.skip(index as int), right as int) == cut_to(
                    s.skip(cursor as int),
                    right as int,
                ),
                done ==> out@ + s.skip(cursor as int) == target,
            decreases n - cursor + if done {
                0int
            } else {
                1int
            },
        {
            let node = self.nodes[cursor];
            let ghost rest = s.skip(cursor as int);
            proof {
                assert(rest[0] == node);
                assert(rest.drop_first() =~= s.skip(cursor + 1));
            }
            if node.x >= right {
                done = true;
            } else {
                let shrink = right - node.x;
                if node.width <= shrink {
                    cursor = cursor + 1;
                } else {
                    let trimmed = SkylineNode { x: right, y: node.y, width: node.width - shrink };
                    out.push(trimmed);
                    cursor = cursor + 1;
                    done = true;
                    proof {
                        assert(cut_to(rest, right as int) == seq![trimmed] + rest.drop_first());
                        assert(out@ + s.skip(cursor as int) =~= head + (seq![trimmed] + rest.drop_first()));
                    }
                }
            }
        }
        proof {
            if !done {
                assert(s.skip(cursor as int) =~= Seq::<SkylineNode>::empty());
                assert(out@ + s.skip(cursor as int) =~= target);
            }
        }
        let ghost settled_prefix = out@;
        while cursor < n
            invariant
                s == self.nodes@,
                n == s.len(),
                cursor <= n,
                out@ + s.skip(cursor as int) == target,
            decreases n - cursor,
        {
            proof {
                assert(s.skip(cursor as int) =~= seq![s[cursor as int]] + s.skip(cursor + 1));
                assert(out@.push(s[cursor as int]) + s.skip(cursor + 1) =~= out@ + s.skip(cursor as int));
            }
            out.push(self.nodes[cursor]);
            cursor = cursor + 1;
        }
        proof {
            assert(s.skip(cursor as int) =~= Seq::<SkylineNode>::empty());
            assert(out@ =~= out@ + s.skip(cursor as int));
        }
        out
    }

    /// Joins neighbouring segments of equal height.
    fn merge(nodes: Vec<SkylineNode>, size: u32) -> (r: Vec<SkylineNode>)
        requires
            spans(nodes@, 0, size as int),
        ensures
            r@ == merged(nodes@),
    {
        let ghost s = nodes@;
        let mut result: Vec<SkylineNode> = Vec::new();
        let mut i: usize = 0;
        while i < nodes.len()
            invariant
                s == nodes@,
                spans(s, 0, size as int),
                i <= s.len(),
                result@ == merged(s.take(i as int)),
            decreases s.len() - i,
        {
            let node = nodes[i];
            let ghost before = s.take(i as int);
            proof {
                assert(s.take(i + 1).drop_last() =~= before);
                assert(s.take(i + 1).last() == node);
                assert(s =~= before + s.skip(i as int));
                lemma_spans_split(before, s.skip(i as int), 0, size as int);
                lemma_spans_bounds(s, 0, size as int);
                assert(s.skip(i as int)[0] == node);
                lemma_merged(before, 0, span_end(before, 0));
            }
            let count = result.len();
            if count > 0 && result[count - 1].y == node.y {
                let last = result[count - 1];
                proof {
                    let m = merged(before);
                    assert(m =~= m.drop_last() + seq![m.last()]);
                    lemma_spans_split(m.drop_last(), seq![m.last()], 0, span_end(before, 0));
                    assert(seq![m.last()].drop_first() =~= Seq::<SkylineNode>::empty());
                    assert(spans(seq![m.last()], span_end(m.drop_last(), 0), span_end(before, 0)));
                    assert(node_end(m.last()) == node.x) by {
                        reveal_with_fuel(spans, 2);
                    }
                }
                let joined = SkylineNode { x: last.x, y: last.y, width: last.width + node.width };
                result.set(count - 1, joined);
                proof {
                    assert(result@ =~= merged(before).drop_last().push(joined));
                }
            } else {
                result.push(node);
            }
            i = i + 1;
        }
        proof {
            assert(s.take(s.len() as int) =~= s);
        }
        result
    }

    /// Every pair of blocks handed out is disjoint, and each block of positive
    /// width lies inside the page.
    pub proof fn law_placements_disjoint(&self)
        requires
            self.well_formed(),
        ensures
            forall|i: int, j: int|
                0 <= i < self.placed().len() && 0 <= j < self.placed().len() && i != j ==> disjoint(
                    #[trigger] self.placed()[i],
                    #[trigger] self.placed()[j],
                ),
            forall|k: int|
                0 <= k < self.placed().len() && (#[trigger] self.placed()[k]).2 > 0 ==> self.placed()[k].0
                    + self.placed()[k].2 <= self.size() && self.placed()[k].1 + self.placed()[k].3
                    <= self.size(),
    {
        assert forall|k: int|
            0 <= k < self.placed().len() && (#[trigger] self.placed()[k]).2 > 0 implies self.placed()[k].0
            + self.placed()[k].2 <= self.size() && self.placed()[k].1 + self.placed()[k].3
            <= self.size() by {
            assert(settled(self.placed()[k], self.nodes(), self.size() as int));
        }
    }
}

} // verus!
