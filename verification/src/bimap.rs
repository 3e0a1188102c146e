use vstd::prelude::*;

verus! {

/// A table that interns words as small, stable integer identifiers.
///
/// The first time a word is seen it is assigned the next free identifier;
/// later requests for the same word return the same identifier, and an
/// identifier resolves back to the word it was assigned to.
pub struct WordMap {
    words: Vec<String>,
}

/// The index of the first entry holding `word`, if any entry does.
fn find_word(words: &Vec<String>, word: &str) -> (r: Option<usize>)
    ensures
        match r {
            Some(i) => i < words@.len() && words@[i as int]@ == word@,
            None => forall|j: int| 0 <= j < words@.len() ==> words@[j]@ != word@,
        },
{
    let owned: String = word.to_owned();
    let n: usize = words.len();
    let mut i: usize = 0;
    while i < n
        invariant
            i <= n,
            n == words@.len(),
            owned@ == word@,
            forall|j: int| 0 <= j < i ==> words@[j]@ != word@,
        decreases n - i,
    {
        if words[i] == owned {
            return Some(i);
        }
        i += 1;
    }
    None
}

impl View for WordMap {
    type V = Seq<Seq<char>>;

    /// The table is abstractly the sequence of interned words, in
    /// identifier order.
    closed spec fn view(&self) -> Seq<Seq<char>> {
        self.words@.map(|_j: int, w: String| w@)
    }
}

impl WordMap {
    /// No word occurs twice, so each word has exactly one identifier.
    pub open spec fn wf(&self) -> bool {
        forall|j1: int, j2: int|
            0 <= j1 < j2 < self@.len() ==> self@[j1] != self@[j2]
    }

    /// An empty table: no word has an identifier yet.
    pub fn new() -> (m: WordMap)
        ensures
            m.wf(),
            m@ == Seq::<Seq<char>>::empty(),
    {
        let m = WordMap { words: Vec::new() };
        proof {
            assert(m@ =~= Seq::<Seq<char>>::empty());
        }
        m
    }

    /// Intern `word`: return its identifier, assigning the next free one on
    /// first sight. Identifiers already handed out never change, and the
    /// returned identifier resolves to `word`.
    pub fn number(&mut self, word: &str) -> (r: usize)
        requires
            old(self).wf(),
        ensures
            final(self).wf(),
            r < final(self)@.len(),
            final(self)@[r as int] == word@,
            forall|j: int| 0 <= j < old(self)@.len() ==> final(self)@[j] == old(self)@[j],
            (exists|j: int| 0 <= j < old(self)@.len() && old(self)@[j] == word@)
                ==> final(self)@ == old(self)@,
            !(exists|j: int| 0 <= j < old(self)@.len() && old(self)@[j] == word@)
                ==> final(self)@ == old(self)@.push(word@) && r == old(self)@.len(),
    {
        match find_word(&self.words, word) {
            Some(i) => {
                proof {
                    assert(self@[i as int] == word@);
                    assert(old(self)@[i as int] == word@);
                }
                i
            },
            None => {
                let n: usize = self.words.len();
                self.words.push(word.to_owned());
                proof {
                    assert(self@ =~= old(self)@.push(word@));
                }
                n
            },
        }
    }

    /// Resolve an identifier back to its word; identifiers never handed out
    /// resolve to nothing.
    pub fn word(&self, n: usize) -> (r: Option<&str>)
        ensures
            n < self@.len() ==> r.is_some() && r.unwrap()@ == self@[n as int],
            n >= self@.len() ==> r.is_none(),
    {
        if n < self.words.len() {
            Some(self.words[n].as_str())
        } else {
            None
        }
    }
}

/// A word held anywhere in a duplicate-free table is held at exactly one
/// place: with [`WordMap::number`]'s contract this says that interning the
/// same word again returns the same identifier as before.
pub proof fn lemma_intern_repeatable(ws: Seq<Seq<char>>, w: Seq<char>, r1: int, r2: int)
    requires
        forall|j1: int, j2: int| 0 <= j1 < j2 < ws.len() ==> ws[j1] != ws[j2],
        0 <= r1 < ws.len(),
        0 <= r2 < ws.len(),
        ws[r1] == w,
        ws[r2] == w,
    ensures
        r1 == r2,
{
}

} // verus!
