use crate::buffer::{buffer_contents, buffer_extend, buffer_freeze, buffer_with_capacity, frozen_contents};
use crate::decimal::{decimal, decimal_bytes};
use crate::tag::Tag;
use bytes::Bytes;
use vstd::prelude::*;
use vstd::utf8::encode_utf8;

verus! {

/// The kind of a measurement, with the value it carries.
pub enum Type<'a> {
    Count(isize),
    Increase,
    Decrease,
    Gauge(&'a str),
    Histogram(&'a str),
    Distribution(&'a str),
    UniqueSet(&'a str),
}

/// The value text that a kind writes after the `:`.
pub open spec fn value_bytes(kind: Type) -> Seq<u8> {
    match kind {
        Type::Count(n) => decimal(n as int),
        Type::Increase => seq![49u8],
        Type::Decrease => seq![45u8, 49u8],
        Type::Gauge(v) => encode_utf8(v@),
        Type::Histogram(v) => encode_utf8(v@),
        Type::Distribution(v) => encode_utf8(v@),
        Type::UniqueSet(v) => encode_utf8(v@),
    }
}

/// The letter after the `|` that closes the value: `c`, `g`, `h`, `d` or `s`.
pub open spec fn suffix_letter(kind: Type) -> u8 {
    match kind {
        Type::Count(_) => 99u8,
        Type::Increase => 99u8,
        Type::Decrease => 99u8,
        Type::Gauge(_) => 103u8,
        Type::Histogram(_) => 104u8,
        Type::Distribution(_) => 100u8,
        Type::UniqueSet(_) => 115u8,
    }
}

/// `<name>:<value>|<letter>`, the part of a frame that comes before any tag.
pub open spec fn head_bytes(name: &str, kind: Type) -> Seq<u8> {
    encode_utf8(name@) + seq![58u8] + value_bytes(kind) + seq![124u8, suffix_letter(kind)]
}

/// The renderings of the tags, in order, each but the first after a `,`.
pub open spec fn join_tags(tags: Seq<Tag>) -> Seq<u8>
    decreases tags.len(),
{
    if tags.len() == 0 {
        Seq::empty()
    } else if tags.len() == 1 {
        tags[0].rendered_bytes()
    } else {
        join_tags(tags.drop_last()) + seq![44u8] + tags.last().rendered_bytes()
    }
}

/// Nothing for no tag; else `|#` and the joined tags.
pub open spec fn tags_section(tags: Seq<Tag>) -> Seq<u8> {
    if tags.len() == 0 {
        Seq::empty()
    } else {
        seq![124u8, 35u8] + join_tags(tags)
    }
}

/// The whole wire frame of a metric.
pub open spec fn frame_of(name: &str, kind: Type, tags: Seq<Tag>) -> Seq<u8> {
    head_bytes(name, kind) + tags_section(tags)
}

/// A tag that is the bare label `text`.
pub open spec fn is_single(t: Tag, text: Seq<char>) -> bool {
    match t {
        Tag::Single(s) => s@ == text,
        Tag::KeyValue(_, _) => false,
    }
}

/// A tag that is the pair `key:value`.
pub open spec fn is_key_value(t: Tag, key: Seq<char>, value: Seq<char>) -> bool {
    match t {
        Tag::Single(_) => false,
        Tag::KeyValue(k, v) => k@ == key && v@ == value,
    }
}

/// Joining a prefix of the tags never gives more bytes than joining them all.
proof fn lemma_join_prefix_len(tags: Seq<Tag>, i: int)
    requires
        0 <= i <= tags.len(),
    ensures
        join_tags(tags.take(i)).len() <= join_tags(tags).len(),
    decreases tags.len(),
{
    if i == tags.len() {
        assert(tags.take(i) =~= tags);
    } else {
        lemma_join_prefix_len(tags.drop_last(), i);
        assert(tags.drop_last().take(i) =~= tags.take(i));
    }
}

/// One step of a join: the next tag goes after a `,`, but for the first.
proof fn lemma_join_step(tags: Seq<Tag>, i: int)
    requires
        0 <= i < tags.len(),
    ensures
        join_tags(tags.take(i + 1)) == if i == 0 {
            tags[0].rendered_bytes()
        } else {
            join_tags(tags.take(i)) + seq![44u8] + tags[i].rendered_bytes()
        },
{
    let t = tags.take(i + 1);
    assert(t.drop_last() =~= tags.take(i));
    assert(t.last() == tags[i]);
    if i == 0 {
        assert(t.len() == 1);
    }
}

/// The length of a sum, where it stays within `isize::MAX`.
fn add_bounded(a: usize, b: usize) -> (r: Option<usize>)
    ensures
        r == if a + b <= isize::MAX {
            Some((a + b) as usize)
        } else {
            None::<usize>
        },
{
    if a <= isize::MAX as usize && b <= isize::MAX as usize - a {
        Some(a + b)
    } else {
        None
    }
}

/// The length of the bytes a tag renders to.
fn rendered_len(t: &Tag) -> (r: Option<usize>)
    ensures
        r == if t.rendered_bytes().len() <= isize::MAX {
            Some(t.rendered_bytes().len() as usize)
        } else {
            None::<usize>
        },
{
    match t {
        Tag::Single(s) => add_bounded(s.as_str().as_bytes().len(), 0),
        Tag::KeyValue(k, v) => match add_bounded(k.as_str().as_bytes().len(), 1) {
            Some(n) => add_bounded(n, v.as_str().as_bytes().len()),
            None => None,
        },
    }
}

/// The length of the joined tags, where it stays within `isize::MAX`.
fn joined_len(tags: &Vec<Tag>) -> (r: Option<usize>)
    ensures
        r == if join_tags(tags@).len() <= isize::MAX {
            Some(join_tags(tags@).len() as usize)
        } else {
            None::<usize>
        },
{
    let mut acc: usize = 0;
    let mut i: usize = 0;
    assert(tags@.take(0) =~= Seq::<Tag>::empty());
    while i < tags.len()
        invariant
            0 <= i <= tags@.len(),
            acc == join_tags(tags@.take(i as int)).len(),
            acc <= isize::MAX,
        decreases tags@.len() - i,
    {
        proof {
            lemma_join_step(tags@, i as int);
            lemma_join_prefix_len(tags@, i + 1);
        }
        let sep: usize = if i == 0 { 0 } else { 1 };
        let step = match rendered_len(&tags[i]) {
            Some(n) => add_bounded(n, sep),
            None => None,
        };
        let next = match step {
            Some(n) => add_bounded(acc, n),
            None => None,
        };
        match next {
            Some(n) => {
                acc = n;
            },
            None => {
                return None;
            },
        }
        i = i + 1;
    }
    assert(tags@.take(i as int) =~= tags@);
    Some(acc)
}

/// The letter that closes the value of `kind`.
fn suffix_byte(kind: &Type) -> (r: u8)
    ensures
        r == suffix_letter(*kind),
{
    match kind {
        Type::Count(_) => 99u8,
        Type::Increase => 99u8,
        Type::Decrease => 99u8,
        Type::Gauge(_) => 103u8,
        Type::Histogram(_) => 104u8,
        Type::Distribution(_) => 100u8,
        Type::UniqueSet(_) => 115u8,
    }
}

/// One measurement: a kind with its value, a name, and the tags added to it.
pub struct Metric<'a> {
    frame_type: Type<'a>,
    message: &'a str,
    tags: Vec<Tag>,
}

impl<'a> Metric<'a> {
    /// The kind of the measurement.
    pub closed spec fn kind(&self) -> Type<'a> {
        self.frame_type
    }

    /// The name of the measurement.
    pub closed spec fn name(&self) -> &'a str {
        self.message
    }

    /// The tags, in the order they were added.
    pub closed spec fn tags(&self) -> Seq<Tag> {
        self.tags@
    }

    /// The wire frame this metric encodes to.
    pub open spec fn frame(&self) -> Seq<u8> {
        frame_of(self.name(), self.kind(), self.tags())
    }

    fn new(frame_type: Type<'a>, message: &'a str) -> (r: Self)
        ensures
            r.kind() == frame_type,
            r.name() == message,
            r.tags() == Seq::<Tag>::empty(),
    {
        Self { frame_type, message, tags: Vec::new() }
    }

    /// Adds one to the counter `message`: `message:1|c`.
    pub fn increase(message: &'a str) -> (r: Self)
        ensures
            r.kind() == Type::Increase,
            r.name() == message,
            r.tags() == Seq::<Tag>::empty(),
    {
        Self::new(Type::Increase, message)
    }

    /// Takes one from the counter `message`: `message:-1|c`.
    pub fn decrease(message: &'a str) -> (r: Self)
        ensures
            r.kind() == Type::Decrease,
            r.name() == message,
            r.tags() == Seq::<Tag>::empty(),
    {
        Self::new(Type::Decrease, message)
    }

    /// Adds `count` to the counter `message`: `message:<count>|c`.
    pub fn count(count: isize, message: &'a str) -> (r: Self)
        ensures
            r.kind() == Type::Count(count),
            r.name() == message,
            r.tags() == Seq::<Tag>::empty(),
    {
        Self::new(Type::Count(count), message)
    }

    /// Sets the gauge `message` to the pre-formatted `value`: `message:<value>|g`.
    pub fn gauge(value: &'a str, message: &'a str) -> (r: Self)
        ensures
            r.kind() == Type::Gauge(value),
            r.name() == message,
            r.tags() == Seq::<Tag>::empty(),
    {
        Self::new(Type::Gauge(value), message)
    }

    /// Records `value` in the histogram `message`: `message:<value>|h`.
    pub fn histogram(value: &'a str, message: &'a str) -> (r: Self)
        ensures
            r.kind() == Type::Histogram(value),
            r.name() == message,
            r.tags() == Seq::<Tag>::empty(),
    {
        Self::new(Type::Histogram(value), message)
    }

    /// Records `value` in the distribution `message`: `message:<value>|d`.
    pub fn distribution(value: &'a str, message: &'a str) -> (r: Self)
        ensures
            r.kind() == Type::Distribution(value),
            r.name() == message,
            r.tags() == Seq::<Tag>::empty(),
    {
        Self::new(Type::Distribution(value), message)
    }

    /// Adds `value` to the set `message`: `message:<value>|s`.
    pub fn set(value: &'a str, message: &'a str) -> (r: Self)
        ensures
            r.kind() == Type::UniqueSet(value),
            r.name() == message,
            r.tags() == Seq::<Tag>::empty(),
    {
        Self::new(Type::UniqueSet(value), message)
    }

    /// Appends the bare label `tag` after the tags already added.
    pub fn add_tag(self, tag: &str) -> (r: Self)
        ensures
            r.kind() == self.kind(),
            r.name() == self.name(),
            r.tags().len() == self.tags().len() + 1,
            r.tags().drop_last() == self.tags(),
            is_single(r.tags().last(), tag@),
    {
        let mut r = self;
        r.tags.push(Tag::Single(tag.to_owned()));
        r
    }

    /// Appends the pair `key:val` after the tags already added.
    pub fn add_key_value(self, key: &str, val: &str) -> (r: Self)
        ensures
            r.kind() == self.kind(),
            r.name() == self.name(),
            r.tags().len() == self.tags().len() + 1,
            r.tags().drop_last() == self.tags(),
            is_key_value(r.tags().last(), key@, val@),
    {
        let mut r = self;
        r.tags.push(Tag::KeyValue(key.to_owned(), val.to_owned()));
        r
    }

    /// The number of bytes of the frame, or `None` where it would pass `isize::MAX`.
    pub fn encoded_len(&self) -> (r: Option<usize>)
        ensures
            r == if self.frame().len() <= isize::MAX {
                Some(self.frame().len() as usize)
            } else {
                None::<usize>
            },
    {
        let value_len: usize = match self.frame_type {
            Type::Count(n) => decimal_bytes(n).len(),
            Type::Increase => 1,
            Type::Decrease => 2,
            Type::Gauge(v) => v.as_bytes().len(),
            Type::Histogram(v) => v.as_bytes().len(),
            Type::Distribution(v) => v.as_bytes().len(),
            Type::UniqueSet(v) => v.as_bytes().len(),
        };
        let head = match add_bounded(self.message.as_bytes().len(), value_len) {
            Some(n) => add_bounded(n, 3),
            None => None,
        };
        let tail = if self.tags.len() == 0 {
            Some(0)
        } else {
            match joined_len(&self.tags) {
                Some(n) => add_bounded(n, 2),
                None => None,
            }
        };
        match head {
            Some(h) => match tail {
                Some(t) => add_bounded(h, t),
                None => None,
            },
            None => None,
        }
    }

    /// Encodes the metric into its wire frame, consuming it. The buffer is
    /// allocated once, at the exact size of the frame.
    pub fn into_bytes(self) -> (r: Bytes)
        requires
            self.frame().len() <= isize::MAX,
        ensures
            frozen_contents(r) == self.frame(),
    {
        let ghost head = head_bytes(self.message, self.frame_type);
        let ghost whole = self.frame();
        let capacity: usize = match self.encoded_len() {
            Some(n) => n,
            None => 0,
        };
        let mut buf = buffer_with_capacity(capacity);
        buffer_extend(&mut buf, self.message.as_bytes());
        let colon = vec![58u8];
        buffer_extend(&mut buf, colon.as_slice());
        match self.frame_type {
            Type::Count(n) => {
                let digits = decimal_bytes(n);
                buffer_extend(&mut buf, digits.as_slice());
            },
            Type::Increase => {
                let one = vec![49u8];
                buffer_extend(&mut buf, one.as_slice());
            },
            Type::Decrease => {
                let minus_one = vec![45u8, 49u8];
                buffer_extend(&mut buf, minus_one.as_slice());
            },
            Type::Gauge(v) => buffer_extend(&mut buf, v.as_bytes()),
            Type::Histogram(v) => buffer_extend(&mut buf, v.as_bytes()),
            Type::Distribution(v) => buffer_extend(&mut buf, v.as_bytes()),
            Type::UniqueSet(v) => buffer_extend(&mut buf, v.as_bytes()),
        }
        let suffix = vec![124u8, suffix_byte(&self.frame_type)];
        buffer_extend(&mut buf, suffix.as_slice());
        assert(buffer_contents(buf) =~= head);
        let n_tags = self.tags.len();
        if n_tags > 0 {
            let marker = vec![124u8, 35u8];
            buffer_extend(&mut buf, marker.as_slice());
        }
        let mut i: usize = 0;
        assert(self.tags@.take(0) =~= Seq::<Tag>::empty());
        while i < n_tags
            invariant
                n_tags == self.tags@.len(),
                0 <= i <= n_tags,
                whole == self.frame(),
                head == head_bytes(self.message, self.frame_type),
                whole.len() <= isize::MAX,
                n_tags == 0 ==> buffer_contents(buf) == head,
                n_tags > 0 ==> buffer_contents(buf) == head + seq![124u8, 35u8] + join_tags(
                    self.tags@.take(i as int),
                ),
            decreases n_tags - i,
        {
            proof {
                lemma_join_step(self.tags@, i as int);
                lemma_join_prefix_len(self.tags@, i + 1);
            }
            if i > 0 {
                let comma = vec![44u8];
                buffer_extend(&mut buf, comma.as_slice());
            }
            match &self.tags[i] {
                Tag::Single(t) => buffer_extend(&mut buf, t.as_str().as_bytes()),
                Tag::KeyValue(k, v) => {
                    buffer_extend(&mut buf, k.as_str().as_bytes());
                    let colon = vec![58u8];
                    buffer_extend(&mut buf, colon.as_slice());
                    buffer_extend(&mut buf, v.as_str().as_bytes());
                },
            }
            assert(buffer_contents(buf) =~= head + seq![124u8, 35u8] + join_tags(
                self.tags@.take(i + 1),
            ));
            i = i + 1;
        }
        proof {
            if n_tags > 0 {
                assert(self.tags@.take(i as int) =~= self.tags@);
            }
        }
        assert(buffer_contents(buf) =~= whole);
        buffer_freeze(buf)
    }
}

} // verus!
