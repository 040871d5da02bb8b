use vstd::prelude::*;

verus! {

/// A half-open range `[start, end)` of positions in a character buffer.
#[derive(Debug, Clone, Copy, PartialEq, Eq, Structural)]
pub struct Span {
    pub start: usize,
    pub end: usize,
}

impl Span {
    pub fn new(start: usize, end: usize) -> (span: Self)
        ensures
            span.start == start,
            span.end == end,
    {
        Span { start, end }
    }

    /// Whether the span lies inside a buffer of `len` characters.
    pub open spec fn fits(self, len: int) -> bool {
        self.start <= self.end <= len
    }
}

/// The parts of a document that a checker may look at: a list of allowed spans.
pub struct Mask {
    allowed: Vec<Span>,
}

impl View for Mask {
    type V = Seq<Span>;

    closed spec fn view(&self) -> Seq<Span> {
        self.allowed@
    }
}

/// Every span of `spans` lies inside a buffer of `len` characters.
pub open spec fn spans_fit(spans: Seq<Span>, len: int) -> bool {
    forall|i: int| 0 <= i < spans.len() ==> (#[trigger] spans[i]).fits(len)
}

impl Mask {
    /// A mask that allows nothing.
    pub fn new_blank() -> (mask: Self)
        ensures
            mask@ == Seq::<Span>::empty(),
    {
        Mask { allowed: Vec::new() }
    }

    /// Indicate that a span of characters is allowed.
    pub fn push_allowed(&mut self, allowed: Span)
        ensures
            final(self)@ == old(self)@.push(allowed),
    {
        self.allowed.push(allowed);
    }

    /// The allowed spans, in the order in which they were pushed.
    pub fn allowed_spans(&self) -> (spans: &[Span])
        ensures
            spans@ == self@,
    {
        self.allowed.as_slice()
    }

    /// Each allowed span together with the characters of `source` that it covers.
    pub fn iter_allowed(&self, source: &[char]) -> (items: Vec<(Span, Vec<char>)>)
        requires
            spans_fit(self@, source@.len() as int),
        ensures
            items@.len() == self@.len(),
            forall|i: int|
                0 <= i < items@.len() ==> {
                    &&& (#[trigger] items@[i]).0 == self@[i]
                    &&& items@[i].1@ == source@.subrange(
                        self@[i].start as int,
                        self@[i].end as int,
                    )
                },
    {
        let mut items: Vec<(Span, Vec<char>)> = Vec::new();
        let mut i: usize = 0;
        while i < self.allowed.len()
            invariant
                i <= self.allowed@.len(),
                spans_fit(self@, source@.len() as int),
                items@.len() == i,
                forall|j: int|
                    0 <= j < i ==> {
                        &&& (#[trigger] items@[j]).0 == self@[j]
                        &&& items@[j].1@ == source@.subrange(
                            self@[j].start as int,
                            self@[j].end as int,
                        )
                    },
            decreases self.allowed@.len() - i,
        {
            let span = self.allowed[i];
            assert(self@[i as int].fits(source@.len() as int));
            let content = slice_to_vec(&source[span.start..span.end]);
            items.push((span, content));
            i = i + 1;
        }
        items
    }
}

/// Copy a slice of characters into a fresh vector.
pub fn slice_to_vec(s: &[char]) -> (v: Vec<char>)
    ensures
        v@ == s@,
{
    let mut v: Vec<char> = Vec::new();
    let mut i: usize = 0;
    while i < s.len()
        invariant
            i <= s@.len(),
            v@ == s@.subrange(0, i as int),
        decreases s@.len() - i,
    {
        v.push(s[i]);
        i = i + 1;
    }
    assert(v@ =~= s@);
    v
}

} // verus!
