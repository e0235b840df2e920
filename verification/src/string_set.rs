use vstd::prelude::*;

verus! {

/// The texts of a list of strings, in the list's order.
pub open spec fn texts(list: Seq<String>) -> Seq<Seq<char>> {
    list.map_values(|s: String| s@)
}

/// The first occurrence of each text of `list`, in the list's order.
pub open spec fn distinct(list: Seq<Seq<char>>) -> Seq<Seq<char>>
    decreases list.len(),
{
    if list.len() == 0 {
        Seq::empty()
    } else {
        let earlier = distinct(list.drop_last());
        if earlier.contains(list.last()) {
            earlier
        } else {
            earlier.push(list.last())
        }
    }
}

/// `distinct` keeps every text of the list, each once, and changes nothing in a list that
/// holds no text twice.
pub proof fn lemma_distinct(list: Seq<Seq<char>>)
    ensures
        distinct(list).no_duplicates(),
        forall|text: Seq<char>|
            #![trigger distinct(list).contains(text)]
            #![trigger list.contains(text)]
            distinct(list).contains(text) <==> list.contains(text),
        distinct(list).to_set() == list.to_set(),
        list.no_duplicates() ==> distinct(list) == list,
    decreases list.len(),
{
    if list.len() > 0 {
        let front = list.drop_last();
        let earlier = distinct(front);
        lemma_distinct(front);
        assert forall|text: Seq<char>| distinct(list).contains(text) <==> list.contains(text) by {
            if list.contains(text) {
                let i = choose|i: int| 0 <= i < list.len() && list[i] == text;
                if i < front.len() {
                    assert(front[i] == text);
                    assert(front.contains(text));
                    assert(earlier.contains(text));
                }
                if !earlier.contains(list.last()) {
                    assert(earlier.push(list.last())[earlier.len() as int] == list.last());
                    if earlier.contains(text) {
                        let j = choose|j: int| 0 <= j < earlier.len() && earlier[j] == text;
                        assert(earlier.push(list.last())[j] == text);
                    }
                }
            }
            if distinct(list).contains(text) {
                let j = choose|j: int| 0 <= j < distinct(list).len() && distinct(list)[j] == text;
                if j < earlier.len() {
                    assert(earlier[j] == text);
                    assert(earlier.contains(text));
                    assert(front.contains(text));
                    let i = choose|i: int| 0 <= i < front.len() && front[i] == text;
                    assert(list[i] == text);
                } else {
                    assert(list[list.len() - 1] == text);
                }
            }
        }
        assert(distinct(list).to_set() =~= list.to_set());
        if list.no_duplicates() {
            assert(front.no_duplicates());
            if earlier.contains(list.last()) {
                let i = choose|i: int| 0 <= i < front.len() && front[i] == list.last();
                assert(list[i] == list[list.len() - 1]);
            }
            assert(distinct(list) =~= list);
        }
    } else {
        assert(distinct(list).to_set() =~= list.to_set());
        assert(distinct(list) =~= list);
    }
}

/// Without its one occurrence of `text`, a list that holds nothing twice holds what it
/// held but `text`.
pub proof fn lemma_remove_value(list: Seq<Seq<char>>, text: Seq<char>)
    requires
        list.no_duplicates(),
    ensures
        list.remove_value(text).no_duplicates(),
        list.remove_value(text).to_set() == list.to_set().remove(text),
        !list.contains(text) ==> list.remove_value(text) == list,
{
    list.index_of_first_ensures(text);
    match list.index_of_first(text) {
        Some(at) => {
            let rest = list.remove(at);
            list.remove_ensures(at);
            assert forall|other: Seq<char>| rest.contains(other) <==> (list.contains(other)
                && other != text) by {
                if rest.contains(other) {
                    let j = choose|j: int| 0 <= j < rest.len() && rest[j] == other;
                    if j < at {
                        assert(list[j] == other);
                    } else {
                        assert(list[j + 1] == other);
                    }
                }
                if list.contains(other) && other != text {
                    let i = choose|i: int| 0 <= i < list.len() && list[i] == other;
                    if i < at {
                        assert(rest[i] == other);
                    } else {
                        assert(rest[i - 1] == other);
                    }
                }
            }
            assert(rest.to_set() =~= list.to_set().remove(text));
        },
        None => {
            assert(list.to_set() =~= list.to_set().remove(text));
        },
    }
}

/// A set of strings that remembers the order in which they came.
pub struct StringSet {
    items: Vec<String>,
}

impl View for StringSet {
    type V = Seq<Seq<char>>;

    /// The texts of the set, first come first.
    closed spec fn view(&self) -> Seq<Seq<char>> {
        texts(self.items@)
    }
}

impl StringSet {
    /// What holds of every set: no text occurs twice.
    #[verifier::type_invariant]
    pub open spec fn nothing_twice(&self) -> bool {
        self@.no_duplicates()
    }

    /// The empty set.
    pub fn new() -> (set: Self)
        ensures
            set@ == Seq::<Seq<char>>::empty(),
    {
        StringSet { items: Vec::new() }
    }

    /// The set of the strings of `list`: each at the place of its first occurrence.
    pub fn from_list(list: &Vec<String>) -> (set: Self)
        ensures
            set@ == distinct(texts(list@)),
            set@.no_duplicates(),
    {
        let mut set = StringSet::new();
        let mut i: usize = 0;
        while i < list.len()
            invariant
                i <= list.len(),
                set@ == distinct(texts(list@).take(i as int)),
            decreases list.len() - i,
        {
            let ghost before = texts(list@).take(i as int);
            let ghost now = texts(list@).take(i + 1);
            assert(now.drop_last() == before);
            assert(now.last() == list@[i as int]@);
            set.insert(list[i].clone());
            i += 1;
        }
        assert(texts(list@).take(list.len() as int) == texts(list@));
        proof {
            lemma_distinct(texts(list@));
        }
        set
    }

    /// Where `key` stands in the set, if it does.
    fn position(&self, key: &String) -> (at: Option<usize>)
        ensures
            match at {
                Some(i) => i < self@.len() && self@[i as int] == key@,
                None => !self@.contains(key@),
            },
    {
        let mut i: usize = 0;
        while i < self.items.len()
            invariant
                i <= self.items.len(),
                forall|j: int| 0 <= j < i ==> texts(self.items@)[j] != key@,
            decreases self.items.len() - i,
        {
            if self.items[i] == *key {
                return Some(i);
            }
            i += 1;
        }
        None
    }

    /// Whether `key` is in the set: the same characters, nothing folded.
    pub fn contains(&self, key: &str) -> (found: bool)
        ensures
            found == self@.contains(key@),
    {
        let key = key.to_owned();
        self.position(&key).is_some()
    }

    /// Adds `key` at the end unless the set holds it; tells whether it was added.
    pub fn insert(&mut self, key: String) -> (added: bool)
        ensures
            added == !old(self)@.contains(key@),
            final(self)@ == if added {
                old(self)@.push(key@)
            } else {
                old(self)@
            },
            final(self)@.no_duplicates(),
    {
        proof {
            use_type_invariant(&*self);
        }
        if self.position(&key).is_some() {
            false
        } else {
            let mut items: Vec<String> = Vec::new();
            std::mem::swap(&mut items, &mut self.items);
            items.push(key);
            assert(texts(items@) == texts(old(self).items@).push(key@));
            std::mem::swap(&mut items, &mut self.items);
            true
        }
    }

    /// Takes `key` out, leaving the others in their order; tells whether it was there.
    pub fn remove(&mut self, key: &str) -> (removed: bool)
        ensures
            removed == old(self)@.contains(key@),
            final(self)@ == old(self)@.remove_value(key@),
            !removed ==> final(self)@ == old(self)@,
            final(self)@.to_set() == old(self)@.to_set().remove(key@),
            final(self)@.no_duplicates(),
    {
        proof {
            use_type_invariant(&*self);
            lemma_remove_value(self@, key@);
        }
        let key = key.to_owned();
        match self.position(&key) {
            Some(at) => {
                proof {
                    self@.index_of_first_ensures(key@);
                }
                let mut items: Vec<String> = Vec::new();
                std::mem::swap(&mut items, &mut self.items);
                items.remove(at);
                assert(texts(items@) == texts(old(self).items@).remove(at as int));
                std::mem::swap(&mut items, &mut self.items);
                true
            },
            None => false,
        }
    }

    /// The strings of the set, first come first.
    pub fn to_vec(&self) -> (list: Vec<String>)
        ensures
            texts(list@) == self@,
            self@.no_duplicates(),
    {
        proof {
            use_type_invariant(self);
        }
        let mut list: Vec<String> = Vec::new();
        let mut i: usize = 0;
        while i < self.items.len()
            invariant
                i <= self.items.len(),
                texts(list@) == texts(self.items@).take(i as int),
            decreases self.items.len() - i,
        {
            let ghost copied = texts(list@);
            list.push(self.items[i].clone());
            assert(texts(list@) == copied.push(self.items@[i as int]@));
            assert(texts(list@) == texts(self.items@).take(i + 1));
            i += 1;
        }
        assert(texts(self.items@).take(self.items.len() as int) == texts(self.items@));
        list
    }
}

} // verus!
