use vstd::prelude::*;
use crate::Error;
use crate::pubkeys::{base58_of, find_pda, parse_pubkey, pda_of, pubkey_bytes_of, pubkey_to_base58};
use crate::types::FormattedAmount;
use crate::utils::{clean_string, trim_both};

verus! {

/// Token metadata reduced to its display fields, NUL padding and quotes
/// stripped.
pub struct ParsedMetadata {
    pub name: String,
    pub symbol: String,
    pub uri: String,
}

/// The shape of a token-image lookup response.
pub struct ImageResponse {
    pub image: String,
}

/// One token account, parsed and priced.
pub struct ParsedAta {
    pub mint: String,
    pub ata: String,
    pub coingecko_id: Option<String>,
    pub decimals: u8,
    pub name: String,
    pub symbol: String,
    pub image: String,
    pub price: Option<u64>,
    pub balance: FormattedAmount,
}

/// Strip the on-chain padding from metadata's three display fields.
pub fn parse_metadata(name: String, symbol: String, uri: String) -> (r: ParsedMetadata)
    ensures
        r.name@ == trim_both(trim_both(name@, '\u{0}'), '"'),
        r.symbol@ == trim_both(trim_both(symbol@, '\u{0}'), '"'),
        r.uri@ == trim_both(trim_both(uri@, '\u{0}'), '"'),
{
    ParsedMetadata { name: clean_string(name), symbol: clean_string(symbol), uri: clean_string(uri) }
}

/// What deserializing a metadata account yields: its name, symbol and uri,
/// or nothing when the bytes are not a metadata record.
pub uninterp spec fn metadata_fields_of(data: Seq<u8>) -> Option<(Seq<char>, Seq<char>, Seq<char>)>;

/// Relies on mpl-token-metadata's `Metadata::safe_deserialize`: the decoded
/// record is a pure function of the account bytes.
#[verifier::external_body]
fn metadata_fields(data: &Vec<u8>) -> (r: Option<(String, String, String)>)
    ensures
        r is Some <==> metadata_fields_of(data@) is Some,
        r matches Some(f) ==> (metadata_fields_of(data@) matches Some(w) && f.0@ == w.0 && f.1@
            == w.1 && f.2@ == w.2),
{
    mpl_token_metadata::accounts::Metadata::safe_deserialize(data.as_slice()).ok().map(
        |m| (m.name, m.symbol, m.uri),
    )
}

/// Decode a metadata account into its display fields, padding stripped;
/// nothing when the bytes are not a metadata record.
pub fn parse_metadata_account(data: &Vec<u8>) -> (r: Option<ParsedMetadata>)
    ensures
        r is Some <==> metadata_fields_of(data@) is Some,
        r matches Some(m) ==> (metadata_fields_of(data@) matches Some(w) && {
            &&& m.name@ == trim_both(trim_both(w.0, '\u{0}'), '"')
            &&& m.symbol@ == trim_both(trim_both(w.1, '\u{0}'), '"')
            &&& m.uri@ == trim_both(trim_both(w.2, '\u{0}'), '"')
        }),
{
    match metadata_fields(data) {
        Some((name, symbol, uri)) => Some(parse_metadata(name, symbol, uri)),
        None => None,
    }
}

/// The token-metadata program that owns metadata accounts.
pub open spec fn metadata_program() -> Seq<char> {
    "metaqbxxUerdq28cj1RbAWkYQm3ybzjb6a8bt518x1s"@
}

fn metadata_program_id() -> (r: String)
    ensures
        r@ == metadata_program(),
{
    "metaqbxxUerdq28cj1RbAWkYQm3ybzjb6a8bt518x1s".to_owned()
}

/// The seed tag of a metadata account: the bytes of `metadata`.
pub open spec fn metadata_seed_spec() -> Seq<u8> {
    seq![0x6du8, 0x65u8, 0x74u8, 0x61u8, 0x64u8, 0x61u8, 0x74u8, 0x61u8]
}

fn metadata_seed() -> (r: Vec<u8>)
    ensures
        r@ == metadata_seed_spec(),
{
    let v: Vec<u8> = vec![0x6d, 0x65, 0x74, 0x61, 0x64, 0x61, 0x74, 0x61];
    proof {
        assert(v@ =~= metadata_seed_spec());
    }
    v
}

fn bytes_to_vec(b: &[u8; 32]) -> (r: Vec<u8>)
    ensures
        r@ == b@,
{
    let mut v: Vec<u8> = Vec::new();
    let mut i: usize = 0;
    while i < 32
        invariant
            i <= 32,
            v@ =~= b@.take(i as int),
        decreases 32 - i,
    {
        v.push(b[i]);
        proof {
            assert(v@ =~= b@.take(i + 1));
        }
        i += 1;
    }
    proof {
        assert(v@ =~= b@);
    }
    v
}

/// Derive the metadata account address for a mint: the program derivation
/// over the tag, the program id and the mint.
pub fn get_metadata_address(mint: &str) -> (r: Result<String, Error>)
    ensures
        pubkey_bytes_of(mint@) is None ==> r == Err::<String, Error>(Error::InvalidAddress),
        pubkey_bytes_of(metadata_program()) is None ==> r is Err,
        pubkey_bytes_of(mint@) matches Some(mb) ==> (pubkey_bytes_of(metadata_program())
            matches Some(pb) ==> match pda_of(seq![metadata_seed_spec(), pb, mb], pb) {
            Some(w) => (r matches Ok(s) && s@ == base58_of(w.0)),
            None => r == Err::<String, Error>(Error::ParseError),
        }),
{
    let mint_bytes = match parse_pubkey(mint) {
        Some(b) => b,
        None => {
            return Err(Error::InvalidAddress);
        }
    };
    let program_str = metadata_program_id();
    let program = match parse_pubkey(program_str.as_str()) {
        Some(b) => b,
        None => {
            return Err(Error::ParseError);
        }
    };
    let mut seeds: Vec<Vec<u8>> = Vec::new();
    seeds.push(metadata_seed());
    seeds.push(bytes_to_vec(&program));
    seeds.push(bytes_to_vec(&mint_bytes));
    proof {
        assert(seeds@.map_values(|v: Vec<u8>| v@) =~= seq![
            metadata_seed_spec(),
            program@,
            mint_bytes@,
        ]);
    }
    match find_pda(&seeds, &program) {
        Some((address, _bump)) => Ok(pubkey_to_base58(&address)),
        None => Err(Error::ParseError),
    }
}

// ---------------------------------------------------------------------------
// Caches
// ---------------------------------------------------------------------------

/// A request-scoped metadata cache: a mint's metadata is fetched once and
/// reused; entries are never evicted or replaced.
pub struct MetadataCache {
    pub entries: Vec<(String, ParsedMetadata)>,
}

pub open spec fn meta_map_of(entries: Seq<(String, ParsedMetadata)>) -> Map<Seq<char>, ParsedMetadata>
    decreases entries.len(),
{
    if entries.len() == 0 {
        Map::empty()
    } else {
        meta_map_of(entries.drop_last()).insert(entries.last().0@, entries.last().1)
    }
}

impl MetadataCache {
    pub open spec fn wf(&self) -> bool {
        forall|i: int, j: int|
            0 <= i < j < self.entries@.len() ==> self.entries@[i].0@ != self.entries@[j].0@
    }

    pub open spec fn view(&self) -> Map<Seq<char>, ParsedMetadata> {
        meta_map_of(self.entries@)
    }

    pub fn new() -> (r: Self)
        ensures
            r.wf(),
            r@ == Map::<Seq<char>, ParsedMetadata>::empty(),
    {
        MetadataCache { entries: Vec::new() }
    }

    /// The cached metadata of a mint.
    pub fn get(&self, mint: &String) -> (r: Option<&ParsedMetadata>)
        requires
            self.wf(),
        ensures
            match r {
                Some(m) => self@.contains_key(mint@) && self@[mint@] == *m,
                None => !self@.contains_key(mint@),
            },
    {
        let n = self.entries.len();
        let mut i: usize = 0;
        while i < n
            invariant
                i <= n,
                n == self.entries@.len(),
                self.wf(),
                forall|j: int| 0 <= j < i ==> self.entries@[j].0@ != mint@,
            decreases n - i,
        {
            if self.entries[i].0 == *mint {
                proof {
                    lemma_meta_map_of_at(self.entries@, i as int);
                }
                return Some(&self.entries[i].1);
            }
            i += 1;
        }
        proof {
            lemma_meta_map_of_absent(self.entries@, mint@);
        }
        None
    }

    /// Record a mint's metadata unless the mint is already cached.
    pub fn insert_if_absent(&mut self, mint: &String, meta: ParsedMetadata)
        requires
            old(self).wf(),
        ensures
            final(self).wf(),
            old(self)@.contains_key(mint@) ==> final(self)@ == old(self)@,
            !old(self)@.contains_key(mint@) ==> final(self)@ == old(self)@.insert(mint@, meta),
    {
        let n = self.entries.len();
        let mut i: usize = 0;
        while i < n
            invariant
                i <= n,
                n == self.entries@.len(),
                self.wf(),
                self.entries@ == old(self).entries@,
                forall|j: int| 0 <= j < i ==> self.entries@[j].0@ != mint@,
            decreases n - i,
        {
            if self.entries[i].0 == *mint {
                proof {
                    lemma_meta_map_of_at(self.entries@, i as int);
                }
                return;
            }
            i += 1;
        }
        proof {
            lemma_meta_map_of_absent(self.entries@, mint@);
        }
        let ghost pre = self.entries@;
        self.entries.push((mint.clone(), meta));
        proof {
            assert(self.entries@.drop_last() =~= pre);
        }
    }
}

proof fn lemma_meta_map_of_at(entries: Seq<(String, ParsedMetadata)>, i: int)
    requires
        0 <= i < entries.len(),
        forall|p: int, q: int| 0 <= p < q < entries.len() ==> entries[p].0@ != entries[q].0@,
    ensures
        meta_map_of(entries).contains_key(entries[i].0@),
        meta_map_of(entries)[entries[i].0@] == entries[i].1,
    decreases entries.len(),
{
    if i < entries.len() - 1 {
        lemma_meta_map_of_at(entries.drop_last(), i);
        assert(entries.last().0@ != entries[i].0@);
    }
}

proof fn lemma_meta_map_of_absent(entries: Seq<(String, ParsedMetadata)>, k: Seq<char>)
    requires
        forall|j: int| 0 <= j < entries.len() ==> entries[j].0@ != k,
    ensures
        !meta_map_of(entries).contains_key(k),
    decreases entries.len(),
{
    if entries.len() > 0 {
        assert(entries.last() == entries[entries.len() - 1]);
        lemma_meta_map_of_absent(entries.drop_last(), k);
    }
}

/// A request-scoped image cache, keyed by token symbol: an image is
/// resolved once and reused; entries are never evicted or replaced.
pub struct ImageCache {
    pub entries: Vec<(String, String)>,
}

pub open spec fn image_map_of(entries: Seq<(String, String)>) -> Map<Seq<char>, String>
    decreases entries.len(),
{
    if entries.len() == 0 {
        Map::empty()
    } else {
        image_map_of(entries.drop_last()).insert(entries.last().0@, entries.last().1)
    }
}

impl ImageCache {
    pub open spec fn wf(&self) -> bool {
        forall|i: int, j: int|
            0 <= i < j < self.entries@.len() ==> self.entries@[i].0@ != self.entries@[j].0@
    }

    pub open spec fn view(&self) -> Map<Seq<char>, String> {
        image_map_of(self.entries@)
    }

    pub fn new() -> (r: Self)
        ensures
            r.wf(),
            r@ == Map::<Seq<char>, String>::empty(),
    {
        ImageCache { entries: Vec::new() }
    }

    /// The cached image of a symbol.
    pub fn get(&self, symbol: &String) -> (r: Option<&String>)
        requires
            self.wf(),
        ensures
            match r {
                Some(url) => self@.contains_key(symbol@) && self@[symbol@] == *url,
                None => !self@.contains_key(symbol@),
            },
    {
        let n = self.entries.len();
        let mut i: usize = 0;
        while i < n
            invariant
                i <= n,
                n == self.entries@.len(),
                self.wf(),
                forall|j: int| 0 <= j < i ==> self.entries@[j].0@ != symbol@,
            decreases n - i,
        {
            if self.entries[i].0 == *symbol {
                proof {
                    lemma_image_map_of_at(self.entries@, i as int);
                }
                return Some(&self.entries[i].1);
            }
            i += 1;
        }
        proof {
            lemma_image_map_of_absent(self.entries@, symbol@);
        }
        None
    }

    /// Record a symbol's image unless the symbol is already cached.
    pub fn insert_if_absent(&mut self, symbol: &String, url: String)
        requires
            old(self).wf(),
        ensures
            final(self).wf(),
            old(self)@.contains_key(symbol@) ==> final(self)@ == old(self)@,
            !old(self)@.contains_key(symbol@) ==> final(self)@ == old(self)@.insert(symbol@, url),
    {
        let n = self.entries.len();
        let mut i: usize = 0;
        while i < n
            invariant
                i <= n,
                n == self.entries@.len(),
                self.wf(),
                self.entries@ == old(self).entries@,
                forall|j: int| 0 <= j < i ==> self.entries@[j].0@ != symbol@,
            decreases n - i,
        {
            if self.entries[i].0 == *symbol {
                proof {
                    lemma_image_map_of_at(self.entries@, i as int);
                }
                return;
            }
            i += 1;
        }
        proof {
            lemma_image_map_of_absent(self.entries@, symbol@);
        }
        let ghost pre = self.entries@;
        self.entries.push((symbol.clone(), url));
        proof {
            assert(self.entries@.drop_last() =~= pre);
        }
    }
}

proof fn lemma_image_map_of_at(entries: Seq<(String, String)>, i: int)
    requires
        0 <= i < entries.len(),
        forall|p: int, q: int| 0 <= p < q < entries.len() ==> entries[p].0@ != entries[q].0@,
    ensures
        image_map_of(entries).contains_key(entries[i].0@),
        image_map_of(entries)[entries[i].0@] == entries[i].1,
    decreases entries.len(),
{
    if i < entries.len() - 1 {
        lemma_image_map_of_at(entries.drop_last(), i);
        assert(entries.last().0@ != entries[i].0@);
    }
}

proof fn lemma_image_map_of_absent(entries: Seq<(String, String)>, k: Seq<char>)
    requires
        forall|j: int| 0 <= j < entries.len() ==> entries[j].0@ != k,
    ensures
        !image_map_of(entries).contains_key(k),
    decreases entries.len(),
{
    if entries.len() > 0 {
        assert(entries.last() == entries[entries.len() - 1]);
        lemma_image_map_of_absent(entries.drop_last(), k);
    }
}

// ---------------------------------------------------------------------------
// Token images
// ---------------------------------------------------------------------------

/// The image pinned to a well-known token symbol, looked up before any
/// network fetch.
pub fn predefined_image(symbol: &String) -> (r: Option<String>)
    ensures
        symbol@ == "USDC"@ ==> (r matches Some(u) && u@
            == "https://s2.coinmarketcap.com/static/img/coins/128x128/3408.png"@),
        symbol@ == "RCL"@ ==> (r matches Some(u) && u@
            == "https://ipfs.io/ipfs/Qme9ErqmQaznzpfDACncEW48NyXJPFP7HgzfoNdto9xQ9P/02.jpg"@),
        symbol@ == "SOL"@ ==> (r matches Some(u) && u@
            == "https://s2.coinmarketcap.com/static/img/coins/128x128/5426.png"@),
        symbol@ != "USDC"@ && symbol@ != "RCL"@ && symbol@ != "SOL"@ ==> r is None,
{
    proof {
        reveal_strlit("USDC");
        reveal_strlit("RCL");
        reveal_strlit("SOL");
        assert("USDC"@.len() == 4);
        assert("RCL"@.len() == 3);
        assert("SOL"@.len() == 3);
        assert("RCL"@[0] == 'R');
        assert("SOL"@[0] == 'S');
    }
    if *symbol == "USDC".to_owned() {
        Some("https://s2.coinmarketcap.com/static/img/coins/128x128/3408.png".to_owned())
    } else if *symbol == "RCL".to_owned() {
        Some("https://ipfs.io/ipfs/Qme9ErqmQaznzpfDACncEW48NyXJPFP7HgzfoNdto9xQ9P/02.jpg".to_owned())
    } else if *symbol == "SOL".to_owned() {
        Some("https://s2.coinmarketcap.com/static/img/coins/128x128/5426.png".to_owned())
    } else {
        None
    }
}

} // verus!
