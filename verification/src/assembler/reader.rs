//! A cursor over a sequence of items that can look one item ahead and keeps
//! count of lines. The lexer reads characters with it, the parser tokens.
use vstd::prelude::*;

verus! {

/// What a [`Reader`] asks of the items it reads.
pub trait Item: Sized {
    /// Whether this item ends a line.
    spec fn ends_line(&self) -> bool;

    /// Whether this item ends a line.
    fn is_newline(&self) -> (ends: bool)
        ensures
            ends == self.ends_line(),
    ;

    /// A copy of the item.
    fn duplicate(&self) -> (copy: Self)
        ensures
            copy == *self,
    ;
}

/// The number of items of `items` that end a line.
pub open spec fn line_count<T: Item>(items: Seq<T>) -> nat
    decreases items.len(),
{
    if items.len() == 0 {
        0
    } else if items.last().ends_line() {
        line_count(items.drop_last()) + 1
    } else {
        line_count(items.drop_last())
    }
}

/// The number of items of `items` that follow the last one that ends a line.
pub open spec fn column<T: Item>(items: Seq<T>) -> nat
    decreases items.len(),
{
    if items.len() == 0 || items.last().ends_line() {
        0
    } else {
        column(items.drop_last()) + 1
    }
}

/// The first position from `from` on at which `items` holds an item that
/// `pred` refuses, or the length of `items` where there is none: where a run
/// of accepted items that starts at `from` ends.
pub open spec fn run_end<T>(items: Seq<T>, from: int, pred: spec_fn(T) -> bool) -> int
    decreases items.len() - from,
{
    if 0 <= from < items.len() && pred(items[from]) {
        run_end(items, from + 1, pred)
    } else {
        from
    }
}

/// `run_end` is the one position that ends a run of accepted items.
pub proof fn lemma_run_end<T>(items: Seq<T>, from: int, pred: spec_fn(T) -> bool, end: int)
    requires
        0 <= from <= end <= items.len(),
        forall|i: int| from <= i < end ==> pred(#[trigger] items[i]),
        end == items.len() || !pred(items[end]),
    ensures
        run_end(items, from, pred) == end,
    decreases end - from,
{
    if from < end {
        lemma_run_end(items, from + 1, pred, end);
    }
}

/// A run ends inside the sequence, holds accepted items only, and stops at
/// the end of the sequence or before an item that is refused.
pub proof fn lemma_run_end_bounds<T>(items: Seq<T>, from: int, pred: spec_fn(T) -> bool)
    requires
        0 <= from <= items.len(),
    ensures
        from <= run_end(items, from, pred) <= items.len(),
        forall|i: int| from <= i < run_end(items, from, pred) ==> pred(#[trigger] items[i]),
        run_end(items, from, pred) == items.len() || !pred(items[run_end(items, from, pred)]),
    decreases items.len() - from,
{
    if from < items.len() && pred(items[from]) {
        lemma_run_end_bounds(items, from + 1, pred);
    }
}

/// Counting lines and columns one item further.
pub proof fn lemma_position_step<T: Item>(items: Seq<T>, offset: int)
    requires
        0 <= offset < items.len(),
    ensures
        line_count(items.take(offset + 1)) == line_count(items.take(offset)) + (if items[offset]
            .ends_line() {
            1nat
        } else {
            0nat
        }),
        column(items.take(offset + 1)) == (if items[offset].ends_line() {
            0nat
        } else {
            column(items.take(offset)) + 1
        }),
        line_count(items.take(offset)) <= offset,
        column(items.take(offset)) <= offset,
    decreases offset,
{
    assert(items.take(offset + 1).drop_last() =~= items.take(offset));
    if offset > 0 {
        lemma_position_step(items, offset - 1);
    }
}

/// Over items of which none ends a line, the line stays and the column goes
/// up by one with each.
pub proof fn lemma_line_unbroken<T: Item>(items: Seq<T>, from: int, to: int)
    requires
        0 <= from <= to <= items.len(),
        forall|i: int| from <= i < to ==> !(#[trigger] items[i]).ends_line(),
    ensures
        line_count(items.take(to)) == line_count(items.take(from)),
        column(items.take(to)) == column(items.take(from)) + (to - from),
    decreases to - from,
{
    if from < to {
        lemma_line_unbroken(items, from, to - 1);
        lemma_position_step(items, to - 1);
    }
}

/// A run goes as far in a longer sequence as in a shorter one that the
/// longer starts with, if it ends inside the shorter one, or at its end where
/// the longer one goes on with an item that is refused.
pub proof fn lemma_run_end_extended<T>(
    short: Seq<T>,
    long: Seq<T>,
    from: int,
    pred: spec_fn(T) -> bool,
)
    requires
        short.len() <= long.len(),
        long.take(short.len() as int) == short,
        0 <= from <= short.len(),
        run_end(short, from, pred) < short.len() || short.len() == long.len() || !pred(
            long[short.len() as int],
        ),
    ensures
        run_end(long, from, pred) == run_end(short, from, pred),
{
    lemma_run_end_bounds(short, from, pred);
    let end = run_end(short, from, pred);
    assert forall|i: int| from <= i < end implies pred(#[trigger] long[i]) by {
        assert(long[i] == long.take(short.len() as int)[i]);
        assert(pred(short[i]));
    }
    if end < short.len() {
        assert(long[end] == long.take(short.len() as int)[end]);
    }
    lemma_run_end(long, from, pred, end);
}

/// The column is 0 at the start of the items and behind each item that ends
/// a line, and nowhere else.
pub proof fn lemma_line_start<T: Item>(items: Seq<T>, offset: int)
    requires
        0 <= offset <= items.len(),
    ensures
        column(items.take(offset)) == 0 <==> offset == 0 || items[offset - 1].ends_line(),
{
    if offset > 0 {
        assert(items.take(offset).last() == items[offset - 1]);
    }
}

/// A cursor over `items`: the items, how many of them have been read, and in
/// which line and at which place in that line the next one stands.
pub struct Reader<T> {
    items: Vec<T>,
    offset: usize,
    item_in_line: usize,
    line: usize,
}

impl<T: Item> Reader<T> {
    /// The items that the reader walks over.
    pub closed spec fn items(&self) -> Seq<T> {
        self.items@
    }

    /// The number of items read so far.
    pub closed spec fn position(&self) -> nat {
        self.offset as nat
    }

    /// The number of line ends read so far.
    pub closed spec fn line_number(&self) -> nat {
        self.line as nat
    }

    /// The number of items read since the last line end.
    pub closed spec fn column_number(&self) -> nat {
        self.item_in_line as nat
    }

    /// The position lies inside the items, and line and column are those of
    /// the items read so far.
    pub closed spec fn wf(&self) -> bool {
        &&& self.offset <= self.items.len()
        &&& self.line == line_count(self.items@.take(self.offset as int))
        &&& self.item_in_line == column(self.items@.take(self.offset as int))
    }

    /// What `wf` says, for those who cannot look inside.
    pub proof fn lemma_wf(&self)
        requires
            self.wf(),
        ensures
            self.position() <= self.items().len() <= usize::MAX,
            self.line_number() == line_count(self.items().take(self.position() as int)),
            self.column_number() == column(self.items().take(self.position() as int)),
    {
    }

    /// A reader at the start of `items`.
    pub fn from(items: Vec<T>) -> (reader: Self)
        ensures
            reader.wf(),
            reader.items() == items@,
            reader.position() == 0,
            reader.line_number() == 0,
            reader.column_number() == 0,
    {
        proof {
            assert(items@.take(0).len() == 0);
        }
        Reader { items, offset: 0, item_in_line: 0, line: 0 }
    }

    /// Goes back to the start. The items stay.
    pub fn reset(&mut self)
        ensures
            final(self).wf(),
            final(self).items() == old(self).items(),
            final(self).position() == 0,
            final(self).line_number() == 0,
            final(self).column_number() == 0,
    {
        proof {
            assert(self.items@.take(0).len() == 0);
        }
        self.offset = 0;
        self.item_in_line = 0;
        self.line = 0;
    }

    /// Whether every item has been read.
    pub fn at_end(&self) -> (ended: bool)
        requires
            self.wf(),
        ensures
            ended == (self.position() == self.items().len()),
    {
        self.offset >= self.items.len()
    }

    /// The number of items read so far.
    pub fn offset(&self) -> (offset: usize)
        ensures
            offset == self.position(),
    {
        self.offset
    }

    /// The number of line ends read so far.
    pub fn line(&self) -> (line: usize)
        ensures
            line == self.line_number(),
    {
        self.line
    }

    /// The number of items read since the last line end.
    pub fn item_in_line(&self) -> (item: usize)
        ensures
            item == self.column_number(),
    {
        self.item_in_line
    }

    /// A copy of the item at `index`, if there is one.
    pub fn get(&self, index: usize) -> (item: Option<T>)
        ensures
            index < self.items().len() ==> item == Some(self.items()[index as int]),
            index >= self.items().len() ==> item is None,
    {
        if index < self.items.len() {
            Some(self.items[index].duplicate())
        } else {
            None
        }
    }

    /// A copy of the next item, which stays unread. `None` at the end.
    pub fn peek(&self) -> (item: Option<T>)
        ensures
            self.position() < self.items().len() ==> item == Some(
                self.items()[self.position() as int],
            ),
            self.position() >= self.items().len() ==> item is None,
    {
        self.get(self.offset)
    }

    /// Moves one item on, keeping count of line and column.
    fn advance(&mut self)
        requires
            old(self).wf(),
            old(self).offset < old(self).items.len(),
        ensures
            final(self).wf(),
            final(self).items@ == old(self).items@,
            final(self).offset == old(self).offset + 1,
    {
        proof {
            lemma_position_step(self.items@, self.offset as int);
        }
        if self.items[self.offset].is_newline() {
            self.line += 1;
            self.item_in_line = 0;
        } else {
            self.item_in_line += 1;
        }
        self.offset += 1;
    }

    /// Reads the next item. It counts as read: the position moves one on, and
    /// the line count goes up by one exactly where the item ends a line.
    /// `None` at the end, where nothing changes.
    pub fn next(&mut self) -> (item: Option<T>)
        requires
            old(self).wf(),
        ensures
            final(self).wf(),
            final(self).items() == old(self).items(),
            old(self).position() < old(self).items().len() ==> {
                let read = old(self).items()[old(self).position() as int];
                &&& item == Some(read)
                &&& final(self).position() == old(self).position() + 1
                &&& final(self).line_number() == old(self).line_number() + (if read.ends_line() {
                    1nat
                } else {
                    0nat
                })
                &&& final(self).column_number() == (if read.ends_line() {
                    0nat
                } else {
                    old(self).column_number() + 1
                })
            },
            old(self).position() >= old(self).items().len() ==> {
                &&& item is None
                &&& final(self).position() == old(self).position()
                &&& final(self).line_number() == old(self).line_number()
                &&& final(self).column_number() == old(self).column_number()
            },
    {
        let item = self.peek();
        if item.is_some() {
            proof {
                lemma_position_step(self.items@, self.offset as int);
            }
            self.advance();
        }
        item
    }

    /// Reads on for as long as `predicate` accepts the next item.
    pub fn skip_while<F: Fn(T) -> bool>(&mut self, predicate: F)
        requires
            old(self).wf(),
            forall|item: T| predicate.requires((item,)),
        ensures
            final(self).wf(),
            final(self).items() == old(self).items(),
            old(self).position() <= final(self).position() <= final(self).items().len(),
            forall|i: int|
                old(self).position() <= i < final(self).position() ==> predicate.ensures(
                    (#[trigger] final(self).items()[i],),
                    true,
                ),
            final(self).position() == final(self).items().len() || predicate.ensures(
                (final(self).items()[final(self).position() as int],),
                false,
            ),
    {
        loop
            invariant
                self.wf(),
                self.items@ == old(self).items@,
                old(self).offset <= self.offset <= self.items.len(),
                forall|item: T| predicate.requires((item,)),
                forall|i: int|
                    old(self).offset <= i < self.offset ==> predicate.ensures(
                        (#[trigger] self.items@[i],),
                        true,
                    ),
            ensures
                self.wf(),
                self.items@ == old(self).items@,
                old(self).offset <= self.offset <= self.items.len(),
                forall|i: int|
                    old(self).offset <= i < self.offset ==> predicate.ensures(
                        (#[trigger] self.items@[i],),
                        true,
                    ),
                self.offset == self.items.len() || predicate.ensures(
                    (self.items@[self.offset as int],),
                    false,
                ),
            decreases self.items.len() - self.offset,
        {
            if self.offset >= self.items.len() {
                break ;
            }
            if !predicate(self.items[self.offset].duplicate()) {
                break ;
            }
            self.advance();
        }
    }

    /// Reads on for as long as `predicate` accepts the next item, and returns
    /// the items read.
    pub fn take_while<F: Fn(T) -> bool>(&mut self, predicate: F) -> (taken: Vec<T>)
        requires
            old(self).wf(),
            forall|item: T| predicate.requires((item,)),
        ensures
            final(self).wf(),
            final(self).items() == old(self).items(),
            old(self).position() <= final(self).position() <= final(self).items().len(),
            taken@ == old(self).items().subrange(
                old(self).position() as int,
                final(self).position() as int,
            ),
            forall|i: int|
                old(self).position() <= i < final(self).position() ==> predicate.ensures(
                    (#[trigger] final(self).items()[i],),
                    true,
                ),
            final(self).position() == final(self).items().len() || predicate.ensures(
                (final(self).items()[final(self).position() as int],),
                false,
            ),
    {
        let mut taken: Vec<T> = Vec::new();
        loop
            invariant
                self.wf(),
                self.items@ == old(self).items@,
                old(self).offset <= self.offset <= self.items.len(),
                taken@ == self.items@.subrange(old(self).offset as int, self.offset as int),
                forall|item: T| predicate.requires((item,)),
                forall|i: int|
                    old(self).offset <= i < self.offset ==> predicate.ensures(
                        (#[trigger] self.items@[i],),
                        true,
                    ),
            ensures
                self.wf(),
                self.items@ == old(self).items@,
                old(self).offset <= self.offset <= self.items.len(),
                taken@ == self.items@.subrange(old(self).offset as int, self.offset as int),
                forall|i: int|
                    old(self).offset <= i < self.offset ==> predicate.ensures(
                        (#[trigger] self.items@[i],),
                        true,
                    ),
                self.offset == self.items.len() || predicate.ensures(
                    (self.items@[self.offset as int],),
                    false,
                ),
            decreases self.items.len() - self.offset,
        {
            if self.offset >= self.items.len() {
                break ;
            }
            if !predicate(self.items[self.offset].duplicate()) {
                break ;
            }
            taken.push(self.items[self.offset].duplicate());
            self.advance();
            assert(taken@ =~= self.items@.subrange(old(self).offset as int, self.offset as int));
        }
        taken
    }
}

} // verus!
