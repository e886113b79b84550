//! The model of a guild channel and the ownership lookup: a channel
//! belongs to a user when its topic holds that user's marker, and at most
//! one channel per guild may carry a given marker.

use vstd::prelude::*;

verus! {

/// One channel of a guild, as the decision logic reads it: identity,
/// display name, optional parent category, optional topic (used as the
/// ownership marker), and the numeric position that orders siblings.
pub struct Channel {
    pub id: u64,
    pub name: String,
    pub parent_id: Option<u64>,
    pub topic: Option<String>,
    pub position: u16,
}

impl Clone for Channel {
    fn clone(&self) -> (r: Self)
        ensures
            r == *self,
    {
        Channel {
            id: self.id,
            name: self.name.clone(),
            parent_id: self.parent_id,
            topic: match &self.topic {
                Some(t) => Some(t.clone()),
                None => None,
            },
            position: self.position,
        }
    }
}

/// A channel is owned by the user with marker `marker` when its topic
/// equals the marker verbatim.
pub open spec fn owned_by(c: Channel, marker: Seq<char>) -> bool {
    c.topic matches Some(t) && t@ == marker
}

/// Whether some channel of the group carries the marker.
pub open spec fn has_owned(s: Seq<Channel>, marker: Seq<char>) -> bool {
    exists|i: int| 0 <= i < s.len() && owned_by(s[i], marker)
}

/// Index of the first channel carrying the marker (meaningful only when
/// `has_owned` holds).
pub open spec fn first_owned_index(s: Seq<Channel>, marker: Seq<char>) -> int
    decreases s.len(),
{
    if s.len() == 0 {
        0
    } else if owned_by(s[0], marker) {
        0
    } else {
        1 + first_owned_index(s.skip(1), marker)
    }
}

/// The ownership invariant: at most one channel of the guild carries a
/// given marker.
pub open spec fn at_most_one_owned(s: Seq<Channel>, marker: Seq<char>) -> bool {
    forall|i: int, j: int|
        0 <= i < s.len() && 0 <= j < s.len() && owned_by(s[i], marker) && owned_by(s[j], marker)
            ==> i == j
}

/// When `has_owned` holds, `first_owned_index` points at the first
/// channel carrying the marker.
pub proof fn lemma_first_owned_index(s: Seq<Channel>, marker: Seq<char>)
    requires
        has_owned(s, marker),
    ensures
        0 <= first_owned_index(s, marker) < s.len(),
        owned_by(s[first_owned_index(s, marker)], marker),
        forall|j: int| 0 <= j < first_owned_index(s, marker) ==> !owned_by(s[j], marker),
    decreases s.len(),
{
    if s.len() != 0 && !owned_by(s[0], marker) {
        assert(has_owned(s.skip(1), marker)) by {
            let i = choose|i: int| 0 <= i < s.len() && owned_by(s[i], marker);
            assert(i > 0);
            assert(s.skip(1)[i - 1] == s[i]);
        }
        lemma_first_owned_index(s.skip(1), marker);
        let f = first_owned_index(s.skip(1), marker);
        assert(s[1 + f] == s.skip(1)[f]);
        assert forall|j: int| 0 <= j < first_owned_index(s, marker) implies !owned_by(
            s[j],
            marker,
        ) by {
            if j > 0 {
                assert(s[j] == s.skip(1)[j - 1]);
                assert(!owned_by(s.skip(1)[j - 1], marker));
            }
        }
    }
}

/// Ownership lookup: the index of the first channel whose topic equals
/// the marker, or `None` when the user owns no channel.
pub fn find_owned(channels: &Vec<Channel>, marker: &String) -> (r: Option<usize>)
    ensures
        match r {
            Some(i) => {
                &&& i < channels@.len()
                &&& owned_by(channels@[i as int], marker@)
                &&& forall|j: int| 0 <= j < i ==> !owned_by(channels@[j], marker@)
            },
            None => !has_owned(channels@, marker@),
        },
{
    let mut i: usize = 0;
    while i < channels.len()
        invariant
            i <= channels@.len(),
            forall|j: int| 0 <= j < i ==> !owned_by(channels@[j], marker@),
        decreases channels@.len() - i,
    {
        let c = &channels[i];
        let is_owned = match &c.topic {
            Some(t) => crate::order::str_eq(t.as_str(), marker.as_str()),
            None => false,
        };
        if is_owned {
            return Some(i);
        }
        i = i + 1;
    }
    None
}

/// A found index agrees with `first_owned_index`.
pub proof fn lemma_find_owned_is_first(s: Seq<Channel>, marker: Seq<char>, i: int)
    requires
        0 <= i < s.len(),
        owned_by(s[i], marker),
        forall|j: int| 0 <= j < i ==> !owned_by(s[j], marker),
    ensures
        has_owned(s, marker),
        first_owned_index(s, marker) == i,
    decreases s.len(),
{
    if i > 0 {
        assert(s.skip(1)[i - 1] == s[i]);
        assert(forall|j: int| 0 <= j < i - 1 ==> #[trigger] s.skip(1)[j] == s[j + 1]);
        lemma_find_owned_is_first(s.skip(1), marker, i - 1);
    }
}

/// The decimal digits of a number, most significant first: the textual
/// form of an owner's identity, stored verbatim in the channel topic.
pub open spec fn dec_chars(n: u64) -> Seq<char>
    decreases n,
{
    if n < 10 {
        seq![dec_digit(n as int)]
    } else {
        dec_chars(n / 10).push(dec_digit((n % 10) as int))
    }
}

/// The character of one decimal digit.
pub open spec fn dec_digit(d: int) -> char {
    if d == 0 {
        '0'
    } else if d == 1 {
        '1'
    } else if d == 2 {
        '2'
    } else if d == 3 {
        '3'
    } else if d == 4 {
        '4'
    } else if d == 5 {
        '5'
    } else if d == 6 {
        '6'
    } else if d == 7 {
        '7'
    } else if d == 8 {
        '8'
    } else {
        '9'
    }
}

/// The string of one decimal digit.
fn digit_str(d: u64) -> (r: &'static str)
    requires
        d < 10,
    ensures
        r@ =~= seq![dec_digit(d as int)],
{
    proof {
        reveal_strlit("0");
        reveal_strlit("1");
        reveal_strlit("2");
        reveal_strlit("3");
        reveal_strlit("4");
        reveal_strlit("5");
        reveal_strlit("6");
        reveal_strlit("7");
        reveal_strlit("8");
        reveal_strlit("9");
    }
    match d {
        0 => "0",
        1 => "1",
        2 => "2",
        3 => "3",
        4 => "4",
        5 => "5",
        6 => "6",
        7 => "7",
        8 => "8",
        _ => "9",
    }
}

/// The owner marker of a user identity: its decimal form, exactly the
/// digits of `dec_chars`.
pub fn marker_of(n: u64) -> (r: String)
    ensures
        r@ == dec_chars(n),
    decreases n,
{
    if n < 10 {
        String::from_str(digit_str(n))
    } else {
        proof {
            assert(n / 10 < n) by (nonlinear_arith)
                requires
                    n >= 10,
            ;
        }
        let mut s = marker_of(n / 10);
        s.append(digit_str(n % 10));
        proof {
            assert(dec_chars(n / 10) + seq![dec_digit((n % 10) as int)] =~= dec_chars(n / 10).push(
                dec_digit((n % 10) as int),
            ));
        }
        s
    }
}

/// Whether a channel is the managed category: its name equals "Blogs".
pub open spec fn is_category(c: Channel) -> bool {
    c.name@ == "Blogs"@
}

/// Whether the guild holds a category channel at all.
pub open spec fn has_category(s: Seq<Channel>) -> bool {
    exists|i: int| 0 <= i < s.len() && is_category(s[i])
}

/// Index of the first category channel (meaningful only when
/// `has_category` holds).
pub open spec fn first_category_index(s: Seq<Channel>) -> int
    decreases s.len(),
{
    if s.len() == 0 {
        0
    } else if is_category(s[0]) {
        0
    } else {
        1 + first_category_index(s.skip(1))
    }
}

/// A first-match index for the category agrees with
/// `first_category_index`.
pub proof fn lemma_find_category_is_first(s: Seq<Channel>, i: int)
    requires
        0 <= i < s.len(),
        is_category(s[i]),
        forall|j: int| 0 <= j < i ==> !is_category(s[j]),
    ensures
        has_category(s),
        first_category_index(s) == i,
    decreases s.len(),
{
    if i > 0 {
        assert(s.skip(1)[i - 1] == s[i]);
        assert(forall|j: int| 0 <= j < i - 1 ==> #[trigger] s.skip(1)[j] == s[j + 1]);
        lemma_find_category_is_first(s.skip(1), i - 1);
    }
}

/// Category lookup: the index of the first channel named "Blogs", or
/// `None` when the guild has no such category (a fatal misconfiguration).
pub fn find_category(channels: &Vec<Channel>) -> (r: Option<usize>)
    ensures
        match r {
            Some(i) => {
                &&& i < channels@.len()
                &&& is_category(channels@[i as int])
                &&& forall|j: int| 0 <= j < i ==> !is_category(channels@[j])
            },
            None => forall|j: int| 0 <= j < channels@.len() ==> !is_category(channels@[j]),
        },
{
    let mut i: usize = 0;
    while i < channels.len()
        invariant
            i <= channels@.len(),
            forall|j: int| 0 <= j < i ==> !is_category(channels@[j]),
        decreases channels@.len() - i,
    {
        if crate::order::str_eq(channels[i].name.as_str(), "Blogs") {
            return Some(i);
        }
        i = i + 1;
    }
    None
}

/// Whether a channel is a child of the given category.
pub open spec fn child_of(c: Channel, category: u64) -> bool {
    c.parent_id == Some(category)
}

/// The sibling group of a category: the channels whose parent is the
/// category, in their original order.
pub open spec fn spec_siblings(s: Seq<Channel>, category: u64) -> Seq<Channel> {
    s.filter(|c: Channel| child_of(c, category))
}

/// The channels whose parent is the given category, in their original
/// order: the sibling group that the planner sorts.
pub fn siblings_of(channels: &Vec<Channel>, category: u64) -> (r: Vec<Channel>)
    ensures
        r@ == spec_siblings(channels@, category),
{
    let mut r: Vec<Channel> = Vec::new();
    let mut i: usize = 0;
    proof {
        reveal(Seq::filter);
        assert(spec_siblings(channels@.take(0int), category) =~= Seq::<Channel>::empty());
    }
    while i < channels.len()
        invariant
            i <= channels@.len(),
            r@ == spec_siblings(channels@.take(i as int), category),
        decreases channels@.len() - i,
    {
        let c = &channels[i];
        proof {
            reveal(Seq::filter);
            assert(channels@.take(i + 1).drop_last() =~= channels@.take(i as int));
            assert(channels@.take(i + 1).last() == channels@[i as int]);
        }
        let keep = match &c.parent_id {
            Some(p) => *p == category,
            None => false,
        };
        if keep {
            r.push(c.clone());
        }
        i = i + 1;
    }
    proof {
        assert(channels@.take(channels@.len() as int) =~= channels@);
    }
    r
}

} // verus!
