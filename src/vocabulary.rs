use vstd::prelude::*;
use vstd::string::*;

verus! {

/// The texts of a sequence of strings, as character sequences.
pub open spec fn texts(ss: Seq<String>) -> Seq<Seq<char>> {
    ss.map_values(|s: String| s@)
}

/// The window bound that a vocabulary gives: the largest character count
/// among its entries, or 1 for an empty vocabulary.
pub open spec fn is_window_bound(v: Set<Seq<char>>, b: nat) -> bool {
    if v.is_empty() {
        b == 1
    } else {
        (exists|e: Seq<char>| #[trigger] v.contains(e) && e.len() == b)
            && (forall|e: Seq<char>| #[trigger] v.contains(e) ==> e.len() <= b)
    }
}

/// Appending `x` to a sequence adds `x` to its set of elements.
pub proof fn lemma_push_to_set<A>(s: Seq<A>, x: A)
    ensures
        s.push(x).to_set() == s.to_set().insert(x),
{
    assert forall|a: A| #[trigger] s.push(x).contains(a) implies s.to_set().insert(x).contains(a) by {
        let j = choose|j: int| 0 <= j < s.len() + 1 && s.push(x)[j] == a;
        if j < s.len() {
            assert(s[j] == a);
        }
    }
    assert forall|a: A| #[trigger] s.to_set().insert(x).contains(a) implies s.push(x).contains(a) by {
        if a == x {
            assert(s.push(x)[s.len() as int] == x);
        } else {
            let j = choose|j: int| 0 <= j < s.len() && s[j] == a;
            assert(s.push(x)[j] == a);
        }
    }
    assert(s.push(x).to_set() =~= s.to_set().insert(x));
}

/// A set of strings with exact-string semantics: each entry is held once.
pub struct Vocabulary {
    entries: Vec<String>,
}

impl View for Vocabulary {
    type V = Set<Seq<char>>;

    closed spec fn view(&self) -> Set<Seq<char>> {
        texts(self.entries@).to_set()
    }
}

impl Vocabulary {
    /// The entries are held without repetition.
    pub closed spec fn wf(&self) -> bool {
        texts(self.entries@).no_duplicates()
    }

    /// The empty vocabulary.
    pub fn new() -> (r: Vocabulary)
        ensures
            r.wf(),
            r@ == Set::<Seq<char>>::empty(),
    {
        let r = Vocabulary { entries: Vec::new() };
        assert(r@ =~= Set::<Seq<char>>::empty());
        r
    }

    /// Whether `s` is an entry.
    pub fn contains(&self, s: &String) -> (r: bool)
        ensures
            r == self@.contains(s@),
    {
        let mut k: usize = 0;
        while k < self.entries.len()
            invariant
                k <= self.entries@.len(),
                forall|j: int| 0 <= j < k ==> self.entries@[j]@ != s@,
            decreases self.entries@.len() - k,
        {
            if self.entries[k].eq(s) {
                assert(texts(self.entries@)[k as int] == s@);
                return true;
            }
            k = k + 1;
        }
        assert(!texts(self.entries@).contains(s@));
        false
    }

    /// Adds `entry`; returns whether it was new.
    pub fn insert(&mut self, entry: String) -> (r: bool)
        requires
            old(self).wf(),
        ensures
            final(self).wf(),
            final(self)@ == old(self)@.insert(entry@),
            r == !old(self)@.contains(entry@),
    {
        if self.contains(&entry) {
            return false;
        }
        let ghost before = texts(self.entries@);
        self.entries.push(entry);
        assert(texts(self.entries@) =~= before.push(entry@));
        proof {
            lemma_push_to_set(before, entry@);
        }
        true
    }

    /// The vocabulary whose entries are the strings of `raw`, repetitions
    /// absorbed.
    pub fn from_entries(raw: Vec<String>) -> (r: Vocabulary)
        ensures
            r.wf(),
            r@ == texts(raw@).to_set(),
    {
        let mut v = Vocabulary::new();
        let mut rest = raw;
        let ghost all = texts(rest@);
        let mut k: usize = 0;
        let n = rest.len();
        while k < n
            invariant
                n == rest@.len(),
                k <= n,
                all == texts(rest@),
                v.wf(),
                v@ == all.subrange(0, k as int).to_set(),
            decreases n - k,
        {
            let s = rest[k].clone();
            v.insert(s);
            proof {
                assert(all.subrange(0, k + 1) =~= all.subrange(0, k as int).push(all[k as int]));
                lemma_push_to_set(all.subrange(0, k as int), all[k as int]);
            }
            k = k + 1;
        }
        assert(all.subrange(0, n as int) =~= all);
        v
    }

    /// The number of entries.
    pub fn len(&self) -> (r: usize)
        requires
            self.wf(),
        ensures
            r == self@.len(),
    {
        proof {
            texts(self.entries@).unique_seq_to_set();
        }
        self.entries.len()
    }

    /// The largest character count among the entries, or 1 when there are
    /// none: the widest window of tokens that a merge tries.
    pub fn max_entry_chars(&self) -> (r: usize)
        ensures
            is_window_bound(self@, r as nat),
    {
        if self.entries.len() == 0 {
            assert(self@ =~= Set::<Seq<char>>::empty());
            return 1;
        }
        let mut m: usize = self.entries[0].as_str().unicode_len();
        let mut k: usize = 1;
        let ghost ts = texts(self.entries@);
        assert(ts[0] == self.entries@[0]@);
        while k < self.entries.len()
            invariant
                ts == texts(self.entries@),
                1 <= k <= ts.len(),
                exists|j: int| 0 <= j < k && ts[j].len() == m,
                forall|j: int| 0 <= j < k ==> ts[j].len() <= m,
            decreases ts.len() - k,
        {
            let c = self.entries[k].as_str().unicode_len();
            assert(ts[k as int] == self.entries@[k as int]@);
            if c > m {
                m = c;
            }
            k = k + 1;
        }
        assert(self@.contains(ts[0]));
        assert forall|e: Seq<char>| #[trigger] self@.contains(e) implies e.len() <= m by {
            let j = choose|j: int| 0 <= j < ts.len() && ts[j] == e;
        }
        let ghost jm = choose|j: int| 0 <= j < k && ts[j].len() == m;
        assert(self@.contains(ts[jm]));
        m
    }
}

} // verus!
