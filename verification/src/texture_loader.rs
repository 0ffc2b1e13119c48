use vstd::prelude::*;
use crate::blocks::BlockTextures;

verus! {

/// What a texture is used for. Each use has its own atlas.
#[derive(Clone, Copy, Debug, PartialEq, Eq, Structural)]
pub enum TextureType {
    Diffuse,
    Normal,
    Emissive,
}

/// The table from texture names to atlas indices, newest entry last. A
/// name that is entered again shadows its older entries.
pub struct TextureIndices {
    entries: Vec<(String, usize)>,
}

/// The index that the newest entry for `name` among the first `n` gives.
pub open spec fn lookup(names: Seq<Seq<char>>, indices: Seq<usize>, name: Seq<char>, n: int) -> Option<
    usize,
>
    decreases n,
{
    if n <= 0 {
        None
    } else if names[n - 1] == name {
        Some(indices[n - 1])
    } else {
        lookup(names, indices, name, n - 1)
    }
}

impl TextureIndices {
    /// The names of the entries, oldest first.
    pub closed spec fn names(&self) -> Seq<Seq<char>> {
        Seq::new(self.entries@.len(), |i: int| self.entries@[i].0@)
    }

    /// The indices of the entries, oldest first.
    pub closed spec fn indices(&self) -> Seq<usize> {
        Seq::new(self.entries@.len(), |i: int| self.entries@[i].1)
    }

    /// The index of a texture, none for an unknown name.
    pub open spec fn index_of(&self, name: Seq<char>) -> Option<usize> {
        lookup(self.names(), self.indices(), name, self.names().len() as int)
    }

    /// The table that knows the three default textures, each at index 0
    /// of its atlas.
    pub fn new() -> (r: Self)
        ensures
            r.names() == seq!["default-diffuse"@, "default-normal"@, "default-emissive"@],
            r.indices() == seq![0usize, 0usize, 0usize],
    {
        let mut entries: Vec<(String, usize)> = Vec::new();
        entries.push(("default-diffuse".to_owned(), 0));
        entries.push(("default-normal".to_owned(), 0));
        entries.push(("default-emissive".to_owned(), 0));
        let r = TextureIndices { entries };
        assert(r.names() =~= seq!["default-diffuse"@, "default-normal"@, "default-emissive"@]);
        assert(r.indices() =~= seq![0usize, 0usize, 0usize]);
        r
    }

    /// Enters a texture under an index.
    pub fn insert(&mut self, name: String, index: usize)
        ensures
            final(self).names() == old(self).names().push(name@),
            final(self).indices() == old(self).indices().push(index),
            final(self).index_of(name@) == Some(index),
    {
        let ghost names_before = self.names();
        let ghost indices_before = self.indices();
        self.entries.push((name, index));
        assert(self.names() =~= names_before.push(name@));
        assert(self.indices() =~= indices_before.push(index));
    }

    /// The index of a texture, none for an unknown name.
    pub fn find(&self, texture: &str) -> (r: Option<usize>)
        ensures
            r == self.index_of(texture@),
    {
        let wanted = texture.to_owned();
        let mut n: usize = self.entries.len();
        while n > 0
            invariant
                n <= self.entries@.len(),
                wanted@ == texture@,
                lookup(self.names(), self.indices(), texture@, n as int) == self.index_of(texture@),
            decreases n,
        {
            if self.entries[n - 1].0 == wanted {
                return Some(self.entries[n - 1].1);
            }
            n = n - 1;
        }
        None
    }

    /// The index of a texture that the table knows.
    pub fn get_indices_from_texture(&self, texture: &str) -> (r: usize)
        requires
            self.index_of(texture@).is_some(),
        ensures
            Some(r) == self.index_of(texture@),
    {
        match self.find(texture) {
            Some(index) => index,
            None => 0,
        }
    }

    /// The indices of the textures that blocks wear, where the table knows
    /// all of them.
    pub fn block_textures(&self) -> (r: Option<BlockTextures>)
        ensures
            match r {
                Some(t) => {
                    &&& self.index_of("dirt"@) == Some(t.dirt)
                    &&& self.index_of("grass-top"@) == Some(t.grass_top)
                    &&& self.index_of("grass-side"@) == Some(t.grass_side)
                    &&& self.index_of("stone"@) == Some(t.stone)
                    &&& self.index_of("log_top"@) == Some(t.log_top)
                    &&& self.index_of("log"@) == Some(t.log)
                    &&& self.index_of("leaf"@) == Some(t.leaf)
                },
                None => {
                    ||| self.index_of("dirt"@).is_none()
                    ||| self.index_of("grass-top"@).is_none()
                    ||| self.index_of("grass-side"@).is_none()
                    ||| self.index_of("stone"@).is_none()
                    ||| self.index_of("log_top"@).is_none()
                    ||| self.index_of("log"@).is_none()
                    ||| self.index_of("leaf"@).is_none()
                },
            },
    {
        let dirt = self.find("dirt");
        let grass_top = self.find("grass-top");
        let grass_side = self.find("grass-side");
        let stone = self.find("stone");
        let log_top = self.find("log_top");
        let log = self.find("log");
        let leaf = self.find("leaf");
        match (dirt, grass_top, grass_side, stone, log_top, log, leaf) {
            (
                Some(dirt),
                Some(grass_top),
                Some(grass_side),
                Some(stone),
                Some(log_top),
                Some(log),
                Some(leaf),
            ) => Some(BlockTextures { dirt, grass_top, grass_side, stone, log_top, log, leaf }),
            _ => None,
        }
    }
}

/// How many textures of a use are among the first `n` loaded textures.
pub open spec fn count_of(types: Seq<TextureType>, wanted: TextureType, n: int) -> int
    decreases n,
{
    if n <= 0 {
        0
    } else {
        count_of(types, wanted, n - 1) + if types[n - 1] == wanted {
            1int
        } else {
            0int
        }
    }
}

/// Among `n` textures there are at most `n` of a use.
pub proof fn lemma_count_of_bounds(types: Seq<TextureType>, wanted: TextureType, n: int)
    requires
        0 <= n,
    ensures
        0 <= count_of(types, wanted, n) <= n,
    decreases n,
{
    if n > 0 {
        lemma_count_of_bounds(types, wanted, n - 1);
    }
}

/// Gives every loaded texture its place in the atlas of its use: the
/// default texture of each atlas sits at place 0, and the loaded textures
/// follow in the order in which they are listed.
pub fn assign_texture_indices(aliases: &Vec<String>, types: &Vec<TextureType>) -> (table:
    TextureIndices)
    requires
        aliases@.len() == types@.len(),
        aliases@.len() < usize::MAX,
    ensures
        table.names().len() == 3 + aliases@.len(),
        forall|k: int|
            3 <= k < 3 + aliases@.len() ==> (#[trigger] table.names()[k]) == aliases@[k - 3]@
                && table.indices()[k] == 1 + count_of(types@, types@[k - 3], k - 3),
        table.names().take(3) == seq!["default-diffuse"@, "default-normal"@, "default-emissive"@],
        table.indices().take(3) == seq![0usize, 0usize, 0usize],
{
    let mut table = TextureIndices::new();
    let mut n_diffuse: usize = 1;
    let mut n_normal: usize = 1;
    let mut n_emissive: usize = 1;
    let mut i: usize = 0;
    assert(table.names().take(3) =~= table.names());
    assert(table.indices().take(3) =~= table.indices());
    while i < aliases.len()
        invariant
            i <= aliases@.len(),
            aliases@.len() == types@.len(),
            aliases@.len() < usize::MAX,
            n_diffuse == 1 + count_of(types@, TextureType::Diffuse, i as int),
            n_normal == 1 + count_of(types@, TextureType::Normal, i as int),
            n_emissive == 1 + count_of(types@, TextureType::Emissive, i as int),
            table.names().len() == 3 + i,
            table.indices().len() == 3 + i,
            forall|k: int|
                3 <= k < 3 + i ==> (#[trigger] table.names()[k]) == aliases@[k - 3]@
                    && table.indices()[k] == 1 + count_of(types@, types@[k - 3], k - 3),
            table.names().take(3) == seq!["default-diffuse"@, "default-normal"@, "default-emissive"@],
            table.indices().take(3) == seq![0usize, 0usize, 0usize],
        decreases aliases@.len() - i,
    {
        proof {
            lemma_count_of_bounds(types@, TextureType::Diffuse, i as int);
            lemma_count_of_bounds(types@, TextureType::Normal, i as int);
            lemma_count_of_bounds(types@, TextureType::Emissive, i as int);
        }
        let ghost names_before = table.names();
        let ghost indices_before = table.indices();
        let alias = aliases[i].clone();
        match types[i] {
            TextureType::Diffuse => {
                table.insert(alias, n_diffuse);
                n_diffuse = n_diffuse + 1;
            },
            TextureType::Normal => {
                table.insert(alias, n_normal);
                n_normal = n_normal + 1;
            },
            TextureType::Emissive => {
                table.insert(alias, n_emissive);
                n_emissive = n_emissive + 1;
            },
        }
        proof {
            assert(table.names().take(3) =~= names_before.take(3));
            assert(table.indices().take(3) =~= indices_before.take(3));
            assert forall|k: int| 3 <= k < 3 + i + 1 implies (#[trigger] table.names()[k])
                == aliases@[k - 3]@ && table.indices()[k] == 1 + count_of(
                types@,
                types@[k - 3],
                k - 3,
            ) by {
                if k < 3 + i {
                    assert(table.names()[k] == names_before[k]);
                    assert(table.indices()[k] == indices_before[k]);
                }
            }
        }
        i = i + 1;
    }
    table
}

} // verus!
