use vstd::prelude::*;
use vstd::string::*;

verus! {

/// `data` is `head`, a colon, then `tail`, where `head` holds no colon:
/// the split of `data` at its first colon.
pub open spec fn splits_at_first_colon(data: Seq<char>, head: Seq<char>, tail: Seq<char>) -> bool {
    &&& data == head + seq![':'] + tail
    &&& !head.contains(':')
}

/// The target and the text of a direct-message payload: the parts before and
/// after its first colon, or two empty texts when it has no colon.
pub open spec fn message_parts(data: Seq<char>) -> (Seq<char>, Seq<char>) {
    if data.contains(':') {
        choose|p: (Seq<char>, Seq<char>)| splits_at_first_colon(data, p.0, p.1)
    } else {
        (Seq::empty(), Seq::empty())
    }
}

/// A text splits at its first colon in one way only.
pub proof fn lemma_split_unique(data: Seq<char>, h1: Seq<char>, t1: Seq<char>, h2: Seq<char>, t2: Seq<char>)
    requires
        splits_at_first_colon(data, h1, t1),
        splits_at_first_colon(data, h2, t2),
    ensures
        h1 == h2,
        t1 == t2,
{
    if h1.len() < h2.len() {
        assert(data[h1.len() as int] == ':');
        assert(data[h1.len() as int] == h2[h1.len() as int]);
        assert(h2.contains(':'));
    } else if h2.len() < h1.len() {
        assert(data[h2.len() as int] == ':');
        assert(data[h2.len() as int] == h1[h2.len() as int]);
        assert(h1.contains(':'));
    } else {
        assert(h1 =~= data.take(h1.len() as int));
        assert(h2 =~= data.take(h2.len() as int));
        assert(t1 =~= data.skip(h1.len() as int + 1));
        assert(t2 =~= data.skip(h2.len() as int + 1));
    }
}

/// Splits the payload of a direct message, `"<target user>:<message>"`, at its
/// first colon. A payload without a colon yields two empty strings.
pub fn parse_direct_message_data(data: &str) -> (parts: (String, String))
    ensures
        data@.contains(':') ==> splits_at_first_colon(data@, parts.0@, parts.1@),
        !data@.contains(':') ==> parts.0@ == Seq::<char>::empty() && parts.1@ == Seq::<char>::empty(),
        (parts.0@, parts.1@) == message_parts(data@),
{
    let n: usize = data.unicode_len();
    let mut i: usize = 0;
    while i < n
        invariant
            n == data@.len(),
            i <= n,
            forall|j: int| 0 <= j < i ==> data@[j] != ':',
        decreases n - i,
    {
        if data.get_char(i) == ':' {
            let head = String::from_str(data.substring_char(0, i));
            let tail = String::from_str(data.substring_char(i + 1, n));
            proof {
                assert(data@ =~= head@ + seq![':'] + tail@);
                assert forall|j: int| 0 <= j < head@.len() implies head@[j] != ':' by {
                    assert(head@[j] == data@[j]);
                }
                assert(data@[i as int] == ':');
                assert(data@.contains(':'));
                let w = (head@, tail@);
                assert(splits_at_first_colon(data@, w.0, w.1));
                let p = choose|p: (Seq<char>, Seq<char>)| splits_at_first_colon(data@, p.0, p.1);
                lemma_split_unique(data@, head@, tail@, p.0, p.1);
            }
            return (head, tail);
        }
        i = i + 1;
    }
    proof {
        assert forall|j: int| 0 <= j < data@.len() implies data@[j] != ':' by {}
    }
    (String::new(), String::new())
}

} // verus!
