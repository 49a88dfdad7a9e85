use crate::decimal::{decimal, lemma_decimal_round_trip, parse_decimal};
use crate::metric::{
    frame_of, head_bytes, join_tags, suffix_letter, tags_section, value_bytes, Metric, Type,
};
use crate::tag::Tag;
use vstd::prelude::*;
use vstd::utf8::encode_utf8;

verus! {

/// No byte of `s` is `b`.
pub open spec fn lacks(s: Seq<u8>, b: u8) -> bool {
    forall|i: int| 0 <= i < s.len() ==> s[i] != b
}

/// The tag marker `|#` starts at position `i` of `s`.
pub open spec fn marker_at(s: Seq<u8>, i: int) -> bool {
    0 <= i && i + 1 < s.len() && s[i] == 124u8 && s[i + 1] == 35u8
}

/// Each comma of `s` stands between two bytes that are not commas.
pub open spec fn single_inner_commas(s: Seq<u8>) -> bool {
    forall|i: int|
        0 <= i < s.len() && #[trigger] s[i] == 44u8 ==> 0 < i < s.len() - 1 && s[i - 1] != 44u8
            && s[i + 1] != 44u8
}

/// A metric without tags encodes to exactly its name, `:`, its value and its
/// suffix, with nothing after.
pub proof fn untagged_frame_is_name_value_suffix(m: Metric)
    requires
        m.tags().len() == 0,
    ensures
        m.frame() == encode_utf8(m.name()@) + seq![58u8] + value_bytes(m.kind()) + seq![
            124u8,
            suffix_letter(m.kind()),
        ],
{
    assert(tags_section(m.tags()) =~= Seq::<u8>::empty());
    assert(m.frame() =~= head_bytes(m.name(), m.kind()));
}

/// The only `|` bytes of a head whose name and value hold none is the one
/// before the suffix letter, and that letter is not `#`.
proof fn lemma_head_bars(name: &str, kind: Type)
    requires
        lacks(encode_utf8(name@), 124u8),
        lacks(value_bytes(kind), 124u8),
    ensures
        ({
            let h = head_bytes(name, kind);
            &&& h.len() >= 2
            &&& h[h.len() - 2] == 124u8
            &&& h[h.len() - 1] != 124u8
            &&& h[h.len() - 1] != 35u8
            &&& forall|i: int| 0 <= i < h.len() - 2 ==> h[i] != 124u8
        }),
{
    let nb = encode_utf8(name@);
    let v = value_bytes(kind);
    let h = head_bytes(name, kind);
    assert forall|i: int| 0 <= i < h.len() - 2 implies h[i] != 124u8 by {
        if i < nb.len() {
            assert(h[i] == nb[i]);
        } else if i == nb.len() {
            assert(h[i] == 58u8);
        } else {
            assert(h[i] == v[i - nb.len() - 1]);
        }
    }
}

/// A metric without tags never holds the tag marker `|#`, where its name and
/// value hold no `|`.
pub proof fn untagged_frame_has_no_marker(m: Metric)
    requires
        m.tags().len() == 0,
        lacks(encode_utf8(m.name()@), 124u8),
        lacks(value_bytes(m.kind()), 124u8),
    ensures
        forall|i: int| !marker_at(m.frame(), i),
{
    untagged_frame_is_name_value_suffix(m);
    lemma_head_bars(m.name(), m.kind());
    assert(m.frame() =~= head_bytes(m.name(), m.kind()));
}

/// Joined tags hold no `|` where no tag renders to one; where each tag renders
/// to some bytes and none of them a comma, the join is not empty and each of
/// its commas stands alone between two tags.
proof fn lemma_join_bytes(tags: Seq<Tag>)
    requires
        forall|j: int| 0 <= j < tags.len() ==> lacks(#[trigger] tags[j].rendered_bytes(), 124u8),
    ensures
        lacks(join_tags(tags), 124u8),
        (forall|j: int|
            0 <= j < tags.len() ==> lacks(#[trigger] tags[j].rendered_bytes(), 44u8)
                && tags[j].rendered_bytes().len() > 0) ==> {
            &&& single_inner_commas(join_tags(tags))
            &&& (tags.len() > 0 ==> join_tags(tags).len() > 0)
        },
    decreases tags.len(),
{
    if tags.len() > 1 {
        let init = tags.drop_last();
        assert forall|j: int| 0 <= j < init.len() implies lacks(
            #[trigger] init[j].rendered_bytes(),
            124u8,
        ) by {
            assert(init[j] == tags[j]);
        }
        lemma_join_bytes(init);
        let a = join_tags(init);
        let r = tags.last().rendered_bytes();
        let s = join_tags(tags);
        assert(s == a + seq![44u8] + r);
        assert(lacks(r, 124u8)) by {
            assert(tags.last() == tags[tags.len() - 1]);
        }
        assert forall|i: int| 0 <= i < s.len() implies s[i] != 124u8 by {
            if i < a.len() {
                assert(s[i] == a[i]);
            } else if i > a.len() {
                assert(s[i] == r[i - a.len() - 1]);
            }
        }
        if forall|j: int|
            0 <= j < tags.len() ==> lacks(#[trigger] tags[j].rendered_bytes(), 44u8)
                && tags[j].rendered_bytes().len() > 0 {
            assert forall|j: int| 0 <= j < init.len() implies lacks(
                #[trigger] init[j].rendered_bytes(),
                44u8,
            ) && init[j].rendered_bytes().len() > 0 by {
                assert(init[j] == tags[j]);
            }
            assert(tags.last() == tags[tags.len() - 1]);
            assert(lacks(r, 44u8) && r.len() > 0);
            assert(single_inner_commas(a));
            assert(a.len() > 0);
            assert forall|i: int| 0 <= i < s.len() && #[trigger] s[i] == 44u8 implies 0 < i < s.len()
                - 1 && s[i - 1] != 44u8 && s[i + 1] != 44u8 by {
                if i < a.len() {
                    assert(s[i] == a[i]);
                    assert(a[i] == 44u8);
                    assert(s[i - 1] == a[i - 1]);
                    assert(s[i + 1] == a[i + 1]);
                } else if i == a.len() {
                    assert(s[i - 1] == a[a.len() - 1]);
                    assert(s[i + 1] == r[0]);
                } else {
                    assert(s[i] == r[i - a.len() - 1]);
                }
            }
        }
    } else if tags.len() == 1 {
        assert(join_tags(tags) == tags[0].rendered_bytes());
    } else {
        assert(join_tags(tags) =~= Seq::<u8>::empty());
    }
}

/// A metric with tags holds the marker `|#` exactly once, right after its
/// suffix, followed by the tags' renderings joined by commas; where no text of
/// it holds a `|`. Where moreover each tag renders to some bytes and none to a
/// comma, each comma after the marker stands alone between two tags, so there
/// is none at the start or at the end.
pub proof fn tagged_frame_layout(m: Metric)
    requires
        m.tags().len() > 0,
        lacks(encode_utf8(m.name()@), 124u8),
        lacks(value_bytes(m.kind()), 124u8),
        forall|j: int|
            0 <= j < m.tags().len() ==> lacks(#[trigger] m.tags()[j].rendered_bytes(), 124u8),
    ensures
        forall|i: int|
            marker_at(m.frame(), i) <==> i == head_bytes(m.name(), m.kind()).len(),
        m.frame().subrange(head_bytes(m.name(), m.kind()).len() + 2int, m.frame().len() as int)
            == join_tags(m.tags()),
        (forall|j: int|
            0 <= j < m.tags().len() ==> lacks(#[trigger] m.tags()[j].rendered_bytes(), 44u8)
                && m.tags()[j].rendered_bytes().len() > 0) ==> single_inner_commas(
            join_tags(m.tags()),
        ),
{
    let h = head_bytes(m.name(), m.kind());
    let t = join_tags(m.tags());
    let f = m.frame();
    lemma_head_bars(m.name(), m.kind());
    lemma_join_bytes(m.tags());
    assert(f == h + seq![124u8, 35u8] + t);
    assert(f.subrange(h.len() + 2int, f.len() as int) =~= t);
    assert forall|i: int| marker_at(f, i) <==> i == h.len() by {
        if i == h.len() {
            assert(f[i] == 124u8);
            assert(f[i + 1] == 35u8);
        } else if marker_at(f, i) {
            if i < h.len() - 2 {
                assert(f[i] == h[i]);
            } else if i == h.len() - 2 {
                assert(f[i + 1] == h[h.len() - 1]);
            } else if i == h.len() - 1 {
                assert(f[i] == h[h.len() - 1]);
            } else if i == h.len() + 1 {
                assert(f[i] == 35u8);
            } else {
                assert(f[i] == t[i - h.len() - 2]);
            }
        }
    }
}

/// A count's value is written as its decimal text, and reading that text back
/// as a signed integer gives the count.
pub proof fn count_value_round_trip(n: isize, name: &str)
    ensures
        frame_of(name, Type::Count(n), Seq::<Tag>::empty()) == encode_utf8(name@) + seq![58u8]
            + decimal(n as int) + seq![124u8, 99u8],
        parse_decimal(decimal(n as int)) == n,
{
    lemma_decimal_round_trip(n as int);
    assert(tags_section(Seq::<Tag>::empty()) =~= Seq::<u8>::empty());
    assert(frame_of(name, Type::Count(n), Seq::<Tag>::empty()) =~= encode_utf8(name@) + seq![
        58u8,
    ] + decimal(n as int) + seq![124u8, 99u8]);
}

} // verus!
