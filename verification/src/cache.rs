//! An in-memory store of finished atlases, one per font.

use crate::atlas::GlyphEntry;
use crate::chars::{chars_of, same_chars};
use vstd::prelude::*;

verus! {

/// The place of a glyph in a stored atlas.
pub type CachedGlyph = GlyphEntry;

/// A finished atlas: its pixels, its side, the places of its glyphs, and the
/// version of the font it was made from.
#[derive(Debug)]
pub struct FontAtlasCache {
    pub atlas_data: Vec<u8>,
    pub atlas_size: usize,
    pub glyph_map: Vec<CachedGlyph>,
    pub font_version: String,
}

/// The version that `cache_font_atlas` stamps on what it stores.
pub const FONT_VERSION: &'static str = "1.0";

/// The store. It maps the name of a font to the atlas stored for it last.
pub struct CacheManager {
    names: Vec<Vec<char>>,
    atlases: Vec<FontAtlasCache>,
}

/// The map that a list of names and a list of atlases stand for: each name maps
/// to the atlas at its position.
pub open spec fn entries_map(names: Seq<Vec<char>>, atlases: Seq<FontAtlasCache>) -> Map<
    Seq<char>,
    FontAtlasCache,
>
    decreases names.len(),
{
    if names.len() == 0 || atlases.len() != names.len() {
        Map::empty()
    } else {
        entries_map(names.drop_last(), atlases.drop_last()).insert(names.last()@, atlases.last())
    }
}

/// No name occurs twice.
pub open spec fn names_distinct(names: Seq<Vec<char>>) -> bool {
    forall|i: int, j: int| 0 <= i < j < names.len() ==> (#[trigger] names[i])@ != (#[trigger] names[j])@
}

/// With distinct names, the map holds exactly the listed names, each with the
/// atlas at its position, and as many entries as there are names.
proof fn lemma_entries(names: Seq<Vec<char>>, atlases: Seq<FontAtlasCache>)
    requires
        names.len() == atlases.len(),
        names_distinct(names),
    ensures
        forall|i: int|
            0 <= i < names.len() ==> entries_map(names, atlases).contains_key(
                (#[trigger] names[i])@,
            ) && entries_map(names, atlases)[names[i]@] == atlases[i],
        forall|key: Seq<char>| #[trigger]
            entries_map(names, atlases).contains_key(key) ==> exists|i: int|
                0 <= i < names.len() && (#[trigger] names[i])@ == key,
        entries_map(names, atlases).dom().finite(),
        entries_map(names, atlases).len() == names.len(),
    decreases names.len(),
{
    if names.len() > 0 {
        let shorter_names = names.drop_last();
        let shorter_atlases = atlases.drop_last();
        let shorter = entries_map(shorter_names, shorter_atlases);
        let last = names.len() - 1;
        assert(names_distinct(shorter_names)) by {
            assert forall|i: int, j: int| 0 <= i < j < shorter_names.len() implies (
            #[trigger] shorter_names[i])@ != (#[trigger] shorter_names[j])@ by {
                assert(names[i]@ != names[j]@);
            }
        }
        lemma_entries(shorter_names, shorter_atlases);
        let whole = entries_map(names, atlases);
        assert(whole == shorter.insert(names[last]@, atlases[last]));
        assert forall|i: int| 0 <= i < names.len() implies whole.contains_key(
            (#[trigger] names[i])@,
        ) && whole[names[i]@] == atlases[i] by {
            if i < last {
                assert(shorter_names[i] == names[i]);
                assert(shorter_atlases[i] == atlases[i]);
                assert(names[i]@ != names[last]@);
            }
        }
        assert forall|key: Seq<char>| #[trigger] whole.contains_key(key) implies exists|i: int|
            0 <= i < names.len() && (#[trigger] names[i])@ == key by {
            if key == names[last]@ {
            } else {
                assert(shorter.contains_key(key));
                let i = choose|i: int| 0 <= i < shorter_names.len() && (#[trigger] shorter_names[i])@
                    == key;
                assert(names[i]@ == key);
            }
        }
        assert(!shorter.contains_key(names[last]@)) by {
            if shorter.contains_key(names[last]@) {
                let i = choose|i: int| 0 <= i < shorter_names.len() && (#[trigger] shorter_names[i])@
                    == names[last]@;
                assert(names[i]@ != names[last]@);
            }
        }
        assert(whole.dom() == shorter.dom().insert(names[last]@));
    }
}

/// Replacing the atlas at a position replaces what its name maps to.
proof fn lemma_entries_update(
    names: Seq<Vec<char>>,
    atlases: Seq<FontAtlasCache>,
    at: int,
    cache: FontAtlasCache,
)
    requires
        names.len() == atlases.len(),
        names_distinct(names),
        0 <= at < names.len(),
    ensures
        entries_map(names, atlases.update(at, cache)) == entries_map(names, atlases).insert(
            names[at]@,
            cache,
        ),
    decreases names.len(),
{
    let last = names.len() - 1;
    let shorter_names = names.drop_last();
    let updated = atlases.update(at, cache);
    if at == last {
        assert(updated.drop_last() =~= atlases.drop_last());
        assert(entries_map(names, updated) =~= entries_map(names, atlases).insert(
            names[at]@,
            cache,
        ));
    } else {
        assert(names_distinct(shorter_names)) by {
            assert forall|i: int, j: int| 0 <= i < j < shorter_names.len() implies (
            #[trigger] shorter_names[i])@ != (#[trigger] shorter_names[j])@ by {
                assert(names[i]@ != names[j]@);
            }
        }
        lemma_entries_update(shorter_names, atlases.drop_last(), at, cache);
        assert(updated.drop_last() =~= atlases.drop_last().update(at, cache));
        assert(shorter_names[at] == names[at]);
        assert(names[at]@ != names[last]@);
        assert(entries_map(names, updated) =~= entries_map(names, atlases).insert(
            names[at]@,
            cache,
        ));
    }
}

impl View for CacheManager {
    type V = Map<Seq<char>, FontAtlasCache>;

    closed spec fn view(&self) -> Map<Seq<char>, FontAtlasCache> {
        entries_map(self.names@, self.atlases@)
    }
}

impl CacheManager {
    /// The invariant of the store: one atlas per name, no name twice.
    pub closed spec fn wf(&self) -> bool {
        &&& self.names@.len() == self.atlases@.len()
        &&& names_distinct(self.names@)
    }

    /// An empty store.
    pub fn new() -> (manager: CacheManager)
        ensures
            manager.wf(),
            manager@ == Map::<Seq<char>, FontAtlasCache>::empty(),
    {
        CacheManager { names: Vec::new(), atlases: Vec::new() }
    }

    /// The position of `name`, if it is stored.
    fn position(&self, name: &Vec<char>) -> (found: Option<usize>)
        requires
            self.wf(),
        ensures
            found matches Some(i) ==> i < self.names@.len() && self.names@[i as int]@ == name@,
            found is None ==> forall|i: int|
                0 <= i < self.names@.len() ==> (#[trigger] self.names@[i])@ != name@,
    {
        let mut i: usize = 0;
        while i < self.names.len()
            invariant
                0 <= i <= self.names@.len(),
                forall|k: int| 0 <= k < i ==> (#[trigger] self.names@[k])@ != name@,
            decreases self.names@.len() - i,
        {
            if same_chars(&self.names[i], name) {
                return Some(i);
            }
            i += 1;
        }
        None
    }

    /// The atlas stored for the font `font_id`, if there is one.
    pub fn get_font_atlas(&self, font_id: &str) -> (cache: Option<&FontAtlasCache>)
        requires
            self.wf(),
        ensures
            cache == if self@.contains_key(font_id@) {
                Some(&self@[font_id@])
            } else {
                None
            },
    {
        let name = chars_of(font_id);
        proof {
            lemma_entries(self.names@, self.atlases@);
        }
        match self.position(&name) {
            Some(i) => Some(&self.atlases[i]),
            None => None,
        }
    }

    /// Stores `cache` for the font `font_id`, in place of what was stored for it.
    pub fn store_font_atlas(&mut self, font_id: &str, cache: FontAtlasCache)
        requires
            old(self).wf(),
        ensures
            final(self).wf(),
            final(self)@ == old(self)@.insert(font_id@, cache),
    {
        let name = chars_of(font_id);
        match self.position(&name) {
            Some(i) => {
                proof {
                    lemma_entries_update(self.names@, self.atlases@, i as int, cache);
                }
                self.atlases.set(i, cache);
            },
            None => {
                self.names.push(name);
                self.atlases.push(cache);
                proof {
                    assert(self.names@.drop_last() =~= old(self).names@);
                    assert(self.atlases@.drop_last() =~= old(self).atlases@);
                    assert forall|i: int, j: int| 0 <= i < j < self.names@.len() implies (
                    #[trigger] self.names@[i])@ != (#[trigger] self.names@[j])@ by {
                        if j < old(self).names@.len() {
                            assert(old(self).names@[i]@ != old(self).names@[j]@);
                        } else {
                            assert(old(self).names@[i]@ != name@);
                        }
                    }
                }
            },
        }
    }

    /// Stores an atlas that was just made for the font `font_id`, stamped with
    /// the current font version.
    pub fn cache_font_atlas(
        &mut self,
        font_id: &str,
        atlas_data: Vec<u8>,
        atlas_size: usize,
        glyph_map: Vec<GlyphEntry>,
    )
        requires
            old(self).wf(),
        ensures
            final(self).wf(),
            final(self)@.contains_key(font_id@),
            final(self)@[font_id@].atlas_data == atlas_data,
            final(self)@[font_id@].atlas_size == atlas_size,
            final(self)@[font_id@].glyph_map == glyph_map,
            final(self)@[font_id@].font_version@ == FONT_VERSION@,
            final(self)@ == old(self)@.insert(font_id@, final(self)@[font_id@]),
    {
        let cache = FontAtlasCache {
            atlas_data,
            atlas_size,
            glyph_map,
            font_version: FONT_VERSION.to_owned(),
        };
        self.store_font_atlas(font_id, cache);
    }

    /// Forgets every stored atlas.
    pub fn clear_cache(&mut self)
        ensures
            final(self).wf(),
            final(self)@ == Map::<Seq<char>, FontAtlasCache>::empty(),
    {
        self.names = Vec::new();
        self.atlases = Vec::new();
    }

    /// The number of fonts for which an atlas is stored.
    pub fn get_cache_size(&self) -> (size: usize)
        requires
            self.wf(),
        ensures
            self@.dom().finite(),
            size == self@.len(),
    {
        proof {
            lemma_entries(self.names@, self.atlases@);
        }
        self.names.len()
    }
}

} // verus!
