//! The Santōka haiku database: poems, their translators, and the
//! publications they appeared in, keyed by plain numeric ids.
//!
//! The database itself is deserialized by the caller and handed in as
//! values; everything here is lookup and classification.

use vstd::prelude::*;

verus! {

#[derive(Debug, Clone, Copy, PartialEq, Eq, Structural)]
pub struct PoemId(pub usize);

#[derive(Debug, Clone, Copy, PartialEq, Eq, Structural)]
pub struct PublicationId(pub usize);

#[derive(Debug, Clone, Copy, PartialEq, Eq, Structural)]
pub struct TranslatorId(pub usize);

#[derive(Debug)]
pub struct Poem {
    pub id: PoemId,
    pub translator_id: TranslatorId,
    pub publication_id: PublicationId,
    pub english_text: Vec<u8>,
    pub japanese_text: Option<Vec<u8>>,
}

#[derive(Debug)]
pub struct Publication {
    pub id: PublicationId,
    pub name: Vec<u8>,
    pub year: Option<u16>,
    pub translator_id: TranslatorId,
    pub description: Vec<u8>,
}

#[derive(Debug)]
pub struct Translator {
    pub id: TranslatorId,
    pub name: Vec<u8>,
}

#[derive(Debug)]
pub struct Database {
    pub created_at: Vec<u8>,
    pub poems: Vec<Poem>,
    pub translators: Vec<Translator>,
    pub publications: Vec<Publication>,
}

/// Index of the first translator with `id`, or the length.
pub open spec fn translator_index(translators: Seq<Translator>, id: TranslatorId) -> int
    decreases translators.len(),
{
    if translators.len() == 0 {
        0
    } else if translators[0].id == id {
        0
    } else {
        1 + translator_index(translators.skip(1), id)
    }
}

proof fn lemma_translator_index_at(translators: Seq<Translator>, id: TranslatorId, i: int)
    requires
        0 <= i <= translators.len(),
        forall|j: int| 0 <= j < i ==> translators[j].id != id,
        i < translators.len() ==> translators[i].id == id,
    ensures
        translator_index(translators, id) == i,
    decreases i,
{
    if translators.len() == 0 {
    } else if i == 0 {
    } else {
        lemma_translator_index_at(translators.skip(1), id, i - 1);
    }
}

/// Index of the first publication with `id`, or the length.
pub open spec fn publication_index(publications: Seq<Publication>, id: PublicationId) -> int
    decreases publications.len(),
{
    if publications.len() == 0 {
        0
    } else if publications[0].id == id {
        0
    } else {
        1 + publication_index(publications.skip(1), id)
    }
}

proof fn lemma_publication_index_at(publications: Seq<Publication>, id: PublicationId, i: int)
    requires
        0 <= i <= publications.len(),
        forall|j: int| 0 <= j < i ==> publications[j].id != id,
        i < publications.len() ==> publications[i].id == id,
    ensures
        publication_index(publications, id) == i,
    decreases i,
{
    if publications.len() == 0 {
    } else if i == 0 {
    } else {
        lemma_publication_index_at(publications.skip(1), id, i - 1);
    }
}

impl Database {
    /// The translator with `id`. Every id in the database refers to a
    /// loaded translator; the caller may only pass such ids.
    pub fn translator(&self, id: TranslatorId) -> (r: &Translator)
        requires
            exists|i: int|
                0 <= i < self.translators@.len() && (#[trigger] self.translators@[i]).id == id,
        ensures
            translator_index(self.translators@, id) < self.translators@.len(),
            *r == self.translators@[translator_index(self.translators@, id)],
            r.id == id,
    {
        let mut i: usize = 0;
        while i < self.translators.len()
            invariant
                0 <= i <= self.translators@.len(),
                exists|w: int|
                    0 <= w < self.translators@.len() && (#[trigger] self.translators@[w]).id
                        == id,
                forall|j: int| 0 <= j < i ==> self.translators@[j].id != id,
            decreases self.translators@.len() - i,
        {
            if self.translators[i].id.0 == id.0 {
                proof {
                    lemma_translator_index_at(self.translators@, id, i as int);
                }
                return &self.translators[i];
            }
            i = i + 1;
        }
        proof {
            let w = choose|w: int|
                0 <= w < self.translators@.len() && (#[trigger] self.translators@[w]).id == id;
            assert(self.translators@[w].id != id);
            assert(false);
        }
        &self.translators[0]
    }

    /// The publication with `id`, under the same condition.
    pub fn publication(&self, id: PublicationId) -> (r: &Publication)
        requires
            exists|i: int|
                0 <= i < self.publications@.len() && (#[trigger] self.publications@[i]).id == id,
        ensures
            publication_index(self.publications@, id) < self.publications@.len(),
            *r == self.publications@[publication_index(self.publications@, id)],
            r.id == id,
    {
        let mut i: usize = 0;
        while i < self.publications.len()
            invariant
                0 <= i <= self.publications@.len(),
                exists|w: int|
                    0 <= w < self.publications@.len() && (#[trigger] self.publications@[w]).id
                        == id,
                forall|j: int| 0 <= j < i ==> self.publications@[j].id != id,
            decreases self.publications@.len() - i,
        {
            if self.publications[i].id.0 == id.0 {
                proof {
                    lemma_publication_index_at(self.publications@, id, i as int);
                }
                return &self.publications[i];
            }
            i = i + 1;
        }
        proof {
            let w = choose|w: int|
                0 <= w < self.publications@.len() && (#[trigger] self.publications@[w]).id == id;
            assert(self.publications@[w].id != id);
            assert(false);
        }
        &self.publications[0]
    }
}

/// Whether any byte of the text is ASCII: a Japanese text written in
/// romaji is made of ASCII letters, while kana and kanji have none.
pub open spec fn uses_romaji_spec(s: Seq<u8>) -> bool {
    exists|i: int| 0 <= i < s.len() && s[i] < 128
}

/// Whether the text holds any ASCII byte.
pub fn uses_romaji(s: &[u8]) -> (r: bool)
    ensures
        r == uses_romaji_spec(s@),
{
    let mut i: usize = 0;
    while i < s.len()
        invariant
            0 <= i <= s@.len(),
            forall|j: int| 0 <= j < i ==> s@[j] >= 128,
        decreases s@.len() - i,
    {
        if s[i] < 128 {
            return true;
        }
        i = i + 1;
    }
    false
}

impl Poem {
    /// Whether the recorded Japanese text is actually romaji.
    pub fn japanese_text_is_romaji(&self) -> (r: bool)
        ensures
            r == match self.japanese_text {
                Some(t) => uses_romaji_spec(t@),
                None => false,
            },
    {
        match &self.japanese_text {
            Some(t) => uses_romaji(t.as_slice()),
            None => false,
        }
    }

    /// The Japanese text, or empty when there is none.
    pub fn japanese_text_or_default(&self) -> (r: &[u8])
        ensures
            r@ == match self.japanese_text {
                Some(t) => t@,
                None => Seq::<u8>::empty(),
            },
    {
        match &self.japanese_text {
            Some(t) => t.as_slice(),
            None => {
                proof {
                    reveal_strlit("");
                }
                let r = crate::text::lit_bytes("");
                proof {
                    assert(r@ =~= Seq::<u8>::empty());
                }
                r
            },
        }
    }
}

/// The poems belonging to one publication, in database order.
pub open spec fn poems_of(poems: Seq<Poem>, id: PublicationId) -> Seq<Poem> {
    poems.filter(|p: Poem| p.publication_id == id)
}

impl Publication {
    /// The poems of this publication, in database order.
    pub fn poems<'a>(&self, database: &'a Database) -> (r: Vec<&'a Poem>)
        ensures
            r@.map_values(|p: &Poem| *p) =~= poems_of(database.poems@, self.id),
    {
        let mut r: Vec<&'a Poem> = Vec::new();
        let mut i: usize = 0;
        proof {
            assert(database.poems@.take(0) =~= Seq::<Poem>::empty());
            reveal_with_fuel(Seq::filter, 2);
            assert(r@.map_values(|p: &Poem| *p) =~= Seq::<Poem>::empty());
        }
        while i < database.poems.len()
            invariant
                0 <= i <= database.poems@.len(),
                r@.map_values(|p: &Poem| *p) =~= database.poems@.take(i as int).filter(
                    |p: Poem| p.publication_id == self.id,
                ),
            decreases database.poems@.len() - i,
        {
            proof {
                assert(database.poems@.take(i + 1).drop_last() =~= database.poems@.take(i as int));
                assert(database.poems@.take(i + 1).last() == database.poems@[i as int]);
                reveal_with_fuel(Seq::filter, 2);
            }
            if database.poems[i].publication_id.0 == self.id.0 {
                let ghost rprev = r@;
                let element = &database.poems[i];
                r.push(element);
                proof {
                    let view_of = |p: &Poem| *p;
                    rprev.lemma_push_map_commute(view_of, element);
                }
            }
            i = i + 1;
        }
        proof {
            assert(database.poems@.take(database.poems@.len() as int) =~= database.poems@);
        }
        r
    }

    /// The first few poems: the preview shown by default.
    pub fn preview_poems<'a>(&self, database: &'a Database) -> (r: Vec<&'a Poem>)
        ensures
            r@.map_values(|p: &Poem| *p) =~= poems_of(database.poems@, self.id).take(
                if poems_of(database.poems@, self.id).len() < 3 {
                    poems_of(database.poems@, self.id).len() as int
                } else {
                    3
                },
            ),
    {
        let all = self.poems(database);
        let mut r: Vec<&'a Poem> = Vec::new();
        let mut i: usize = 0;
        while i < all.len() && i < 3
            invariant
                0 <= i <= all@.len(),
                i <= 3,
                r@ =~= all@.take(i as int),
            decreases all@.len() - i,
        {
            r.push(all[i]);
            i = i + 1;
        }
        proof {
            let m = |p: &Poem| *p;
            assert forall|j: int| 0 <= j < r@.len() implies r@.map_values(m)[j] == all@.map_values(
                m,
            ).take(i as int)[j] by {
                assert(r@[j] == all@[j]);
            }
            assert(r@.map_values(m) =~= all@.map_values(m).take(i as int));
        }
        r
    }

    /// The poems hidden behind the fold.
    pub fn non_preview_poems<'a>(&self, database: &'a Database) -> (r: Vec<&'a Poem>)
        ensures
            r@.map_values(|p: &Poem| *p) =~= poems_of(database.poems@, self.id).skip(
                if poems_of(database.poems@, self.id).len() < 3 {
                    poems_of(database.poems@, self.id).len() as int
                } else {
                    3
                },
            ),
    {
        let all = self.poems(database);
        let mut r: Vec<&'a Poem> = Vec::new();
        let mut i: usize = if all.len() < 3 {
            all.len()
        } else {
            3
        };
        let ghost start = i as int;
        while i < all.len()
            invariant
                0 <= start <= i <= all@.len(),
                r@ =~= all@.subrange(start, i as int),
            decreases all@.len() - i,
        {
            r.push(all[i]);
            i = i + 1;
        }
        proof {
            let m = |p: &Poem| *p;
            assert forall|j: int| 0 <= j < r@.len() implies r@.map_values(m)[j] == all@.map_values(
                m,
            ).skip(start)[j] by {
                assert(r@[j] == all@[start + j]);
            }
            assert(r@.map_values(m) =~= all@.map_values(m).skip(start));
        }
        r
    }

    /// The publication year as text, or the word for an unknown year.
    pub fn year_or_unknown(&self) -> (r: Vec<u8>)
        ensures
            match self.year {
                Some(y) => crate::text::all_digits(r@) && crate::text::dec_value(r@) == y
                    && r@.len() > 0,
                None => r@ == crate::text::str_bytes("unknown"),
            },
    {
        match self.year {
            Some(y) => crate::text::format_u64(y as u64),
            None => {
                proof {
                    reveal_strlit("unknown");
                }
                let mut r: Vec<u8> = Vec::new();
                crate::controllers::append_bytes(&mut r, crate::text::lit_bytes("unknown"));
                proof {
                    assert(r@ =~= crate::text::str_bytes("unknown"));
                }
                r
            },
        }
    }

    /// Whether anything is hidden behind the fold.
    pub fn has_non_preview_poems(&self, database: &Database) -> (r: bool)
        ensures
            r == (poems_of(database.poems@, self.id).len() > 3),
    {
        let all = self.poems(database);
        proof {
            assert(all@.map_values(|p: &Poem| *p).len() == all@.len());
        }
        all.len() > 3
    }

    /// Whether any poem of this publication records Japanese text.
    pub fn has_japanese_text(&self, database: &Database) -> (r: bool)
        ensures
            r == exists|j: int|
                0 <= j < poems_of(database.poems@, self.id).len() && (#[trigger] poems_of(
                    database.poems@,
                    self.id,
                )[j]).japanese_text is Some,
    {
        let all = self.poems(database);
        let ghost mine = poems_of(database.poems@, self.id);
        let mut i: usize = 0;
        while i < all.len()
            invariant
                0 <= i <= all@.len(),
                all@.map_values(|p: &Poem| *p) =~= mine,
                mine == poems_of(database.poems@, self.id),
                forall|j: int| 0 <= j < i ==> !((#[trigger] mine[j]).japanese_text is Some),
            decreases all@.len() - i,
        {
            proof {
                assert(mine[i as int] == all@.map_values(|p: &Poem| *p)[i as int]);
            }
            let has_text = match &all[i].japanese_text {
                Some(_) => true,
                None => false,
            };
            if has_text {
                return true;
            }
            i = i + 1;
        }
        false
    }
}

} // verus!
