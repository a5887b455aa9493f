//! Domain records of the wallet store.
//!
//! Plain value types with no behavior of their own: configuration, named
//! keys, cached outputs and asset definitions, transaction builders and
//! finalized transactions.  Each storable record implements `HasTable`
//! with a deterministic field encoding, so the store's contracts apply to
//! it; each has a ghost view mirroring its fields.

use vstd::prelude::*;

use crate::codec::{
    decode_fields, digits_string, encode_fields, lemma_fields_round_trip, lemma_spec_digits_all_digits,
    lemma_spec_digits_value, parse_u64_str, spec_digits, spec_encode_fields, spec_fields,
    spec_parse_u64,
};
use crate::engine::is_canonical_name;
use crate::store::HasTable;

verus! {

use vstd::string::StrSliceExecFns;
use vstd::string::StringExecFns;

// ---------------------------------------------------------------------------
// Field helpers: options and numbers inside one field.
// ---------------------------------------------------------------------------

/// An optional string in one field: `0` for none, `1` followed by the text.
pub open spec fn spec_enc_opt_str(o: Option<Seq<char>>) -> Seq<char> {
    match o {
        None => seq!['0'],
        Some(s) => seq!['1'] + s,
    }
}

pub open spec fn spec_dec_opt_str(f: Seq<char>) -> Option<Option<Seq<char>>> {
    if f.len() == 1 && f[0] == '0' {
        Some(None)
    } else if f.len() >= 1 && f[0] == '1' {
        Some(Some(f.skip(1)))
    } else {
        None
    }
}

pub proof fn lemma_opt_str_round_trip(o: Option<Seq<char>>)
    ensures
        spec_dec_opt_str(spec_enc_opt_str(o)) == Some(o),
{
    match o {
        None => {},
        Some(s) => {
            assert((seq!['1'] + s)[0] == '1');
            assert((seq!['1'] + s).skip(1) =~= s);
        },
    }
}

/// An optional number in one field: `0` for none, `1` followed by digits.
pub open spec fn spec_enc_opt_u64(o: Option<u64>) -> Seq<char> {
    match o {
        None => seq!['0'],
        Some(n) => seq!['1'] + spec_digits(n as nat),
    }
}

pub open spec fn spec_dec_opt_u64(f: Seq<char>) -> Option<Option<u64>> {
    if f.len() == 1 && f[0] == '0' {
        Some(None)
    } else if f.len() >= 1 && f[0] == '1' {
        match spec_parse_u64(f.skip(1)) {
            None => None,
            Some(n) => Some(Some(n)),
        }
    } else {
        None
    }
}

pub proof fn lemma_opt_u64_round_trip(o: Option<u64>)
    ensures
        spec_dec_opt_u64(spec_enc_opt_u64(o)) == Some(o),
{
    match o {
        None => {},
        Some(n) => {
            let ds = spec_digits(n as nat);
            lemma_spec_digits_all_digits(n as nat);
            lemma_spec_digits_value(n as nat);
            assert((seq!['1'] + ds)[0] == '1');
            assert((seq!['1'] + ds).skip(1) =~= ds);
            assert(spec_parse_u64(ds) == Some(n));
        },
    }
}

/// A boolean in one field: `0` or `1`.
pub open spec fn spec_enc_bool(b: bool) -> Seq<char> {
    if b {
        seq!['1']
    } else {
        seq!['0']
    }
}

pub open spec fn spec_dec_bool(f: Seq<char>) -> Option<bool> {
    if f.len() == 1 && f[0] == '0' {
        Some(false)
    } else if f.len() == 1 && f[0] == '1' {
        Some(true)
    } else {
        None
    }
}

/// Encode an optional string field.
pub fn enc_opt_str(o: &Option<String>) -> (r: String)
    ensures
        r@ == spec_enc_opt_str(match o {
            Some(s) => Some(s@),
            None => None,
        }),
{
    match o {
        None => {
            let r = String::from_str("0");
            proof {
                reveal_strlit("0");
                assert(r@ =~= seq!['0']);
            }
            r
        },
        Some(s) => {
            let mut r = String::from_str("1");
            r.append(s.as_str());
            proof {
                reveal_strlit("1");
                assert(r@ =~= seq!['1'] + s@);
            }
            r
        },
    }
}

/// Decode an optional string field.
pub fn dec_opt_str(f: &str) -> (r: Option<Option<String>>)
    ensures
        r is Some <==> spec_dec_opt_str(f@) is Some,
        r is Some ==> spec_dec_opt_str(f@) == Some(
            match r->0 {
                Some(s) => Some(s@),
                None => None,
            },
        ),
{
    let n = f.unicode_len();
    if n == 0 {
        return None;
    }
    let c = f.get_char(0);
    if c == '0' && n == 1 {
        Some(None)
    } else if c == '1' {
        let rest = f.substring_char(1, n).to_owned();
        proof {
            assert(rest@ =~= f@.skip(1));
        }
        Some(Some(rest))
    } else {
        None
    }
}

/// Encode an optional number field.
pub fn enc_opt_u64(o: &Option<u64>) -> (r: String)
    ensures
        r@ == spec_enc_opt_u64(*o),
{
    match o {
        None => {
            let r = String::from_str("0");
            proof {
                reveal_strlit("0");
                assert(r@ =~= seq!['0']);
            }
            r
        },
        Some(n) => {
            let mut r = String::from_str("1");
            r.append(digits_string(*n).as_str());
            proof {
                reveal_strlit("1");
                assert(r@ =~= seq!['1'] + spec_digits(*n as nat));
            }
            r
        },
    }
}

/// Decode an optional number field.
pub fn dec_opt_u64(f: &str) -> (r: Option<Option<u64>>)
    ensures
        r == spec_dec_opt_u64(f@),
{
    let n = f.unicode_len();
    if n == 0 {
        return None;
    }
    let c = f.get_char(0);
    if c == '0' && n == 1 {
        Some(None)
    } else if c == '1' {
        let rest = f.substring_char(1, n);
        proof {
            assert(rest@ =~= f@.skip(1));
        }
        match parse_u64_str(rest) {
            None => None,
            Some(v) => Some(Some(v)),
        }
    } else {
        None
    }
}

/// Encode a boolean field.
pub fn enc_bool(b: bool) -> (r: String)
    ensures
        r@ == spec_enc_bool(b),
{
    if b {
        let r = String::from_str("1");
        proof {
            reveal_strlit("1");
            assert(r@ =~= seq!['1']);
        }
        r
    } else {
        let r = String::from_str("0");
        proof {
            reveal_strlit("0");
            assert(r@ =~= seq!['0']);
        }
        r
    }
}

/// Decode a boolean field.
pub fn dec_bool(f: &str) -> (r: Option<bool>)
    ensures
        r == spec_dec_bool(f@),
{
    let n = f.unicode_len();
    if n != 1 {
        return None;
    }
    let c = f.get_char(0);
    if c == '0' {
        Some(false)
    } else if c == '1' {
        Some(true)
    } else {
        None
    }
}

// ---------------------------------------------------------------------------
// Nicknames: human-chosen lookup keys for wallet objects.
// ---------------------------------------------------------------------------

/// Nickname of a cached asset type.
#[derive(Clone, Debug, PartialEq, Eq, Hash, Default)]
pub struct AssetTypeName(pub String);

/// Nickname of a stored key pair.
#[derive(Clone, Debug, PartialEq, Eq, Hash, Default)]
pub struct KeypairName(pub String);

/// Nickname of a stored public key.
#[derive(Clone, Debug, PartialEq, Eq, Hash, Default)]
pub struct PubkeyName(pub String);

/// Nickname of a finalized transaction.
#[derive(Clone, Debug, PartialEq, Eq, Hash, Default)]
pub struct TxnName(pub String);

/// Nickname of an in-progress transaction builder.
#[derive(Clone, Debug, PartialEq, Eq, Hash, Default)]
pub struct TxnBuilderName(pub String);

/// Nickname of a cached transaction output.
#[derive(Clone, Debug, PartialEq, Eq, Hash, Default)]
pub struct TxoName(pub String);

impl View for AssetTypeName {
    type V = Seq<char>;

    open spec fn view(&self) -> Seq<char> {
        self.0@
    }
}

impl View for KeypairName {
    type V = Seq<char>;

    open spec fn view(&self) -> Seq<char> {
        self.0@
    }
}

impl View for PubkeyName {
    type V = Seq<char>;

    open spec fn view(&self) -> Seq<char> {
        self.0@
    }
}

impl View for TxnName {
    type V = Seq<char>;

    open spec fn view(&self) -> Seq<char> {
        self.0@
    }
}

impl View for TxnBuilderName {
    type V = Seq<char>;

    open spec fn view(&self) -> Seq<char> {
        self.0@
    }
}

impl View for TxoName {
    type V = Seq<char>;

    open spec fn view(&self) -> Seq<char> {
        self.0@
    }
}

// ---------------------------------------------------------------------------
// Configuration.
// ---------------------------------------------------------------------------

/// A singleton record: server endpoints and the open-count counter.
/// Created with defaults on first access rather than erroring.
#[derive(Clone, Debug, PartialEq, Eq)]
pub struct CliConfig {
    pub submission_server: String,
    pub ledger_server: String,
    pub open_count: u64,
}

/// Ghost mirror of `CliConfig`.
pub struct CliConfigView {
    pub submission_server: Seq<char>,
    pub ledger_server: Seq<char>,
    pub open_count: u64,
}

impl View for CliConfig {
    type V = CliConfigView;

    open spec fn view(&self) -> CliConfigView {
        CliConfigView {
            submission_server: self.submission_server@,
            ledger_server: self.ledger_server@,
            open_count: self.open_count,
        }
    }
}

pub open spec fn default_sub_server_spec() -> Seq<char> {
    "https://testnet.findora.org/submit_server"@
}

pub open spec fn default_ledger_server_spec() -> Seq<char> {
    "https://testnet.findora.org/query_server"@
}

/// The default submission endpoint.
pub fn default_sub_server() -> (r: String)
    ensures
        r@ == default_sub_server_spec(),
{
    String::from_str("https://testnet.findora.org/submit_server")
}

/// The default ledger-access endpoint.
pub fn default_ledger_server() -> (r: String)
    ensures
        r@ == default_ledger_server_spec(),
{
    String::from_str("https://testnet.findora.org/query_server")
}

impl Default for CliConfig {
    fn default() -> (r: CliConfig)
        ensures
            r@ == (CliConfigView {
                submission_server: default_sub_server_spec(),
                ledger_server: default_ledger_server_spec(),
                open_count: 0,
            }),
    {
        CliConfig {
            submission_server: default_sub_server(),
            ledger_server: default_ledger_server(),
            open_count: 0,
        }
    }
}

impl HasTable for CliConfig {
    type Key = String;

    open spec fn table_name_spec() -> Seq<char> {
        "config"@
    }

    proof fn lemma_table_name_canonical() {
        assert(is_canonical_name("config"@)) by {
            reveal_strlit("config");
        }
    }

    open spec fn key_enc_of(k: Seq<char>) -> Seq<char> {
        k
    }

    open spec fn value_enc_of(v: CliConfigView) -> Seq<char> {
        spec_encode_fields(
            seq![v.submission_server, v.ledger_server, spec_digits(v.open_count as nat)],
        )
    }

    open spec fn key_dec_of(s: Seq<char>) -> Option<Seq<char>> {
        Some(s)
    }

    open spec fn value_dec_of(s: Seq<char>) -> Option<CliConfigView> {
        match spec_fields(s) {
            None => None,
            Some(fs) => if fs.len() == 3 {
                match spec_parse_u64(fs[2]) {
                    None => None,
                    Some(n) => Some(
                        CliConfigView {
                            submission_server: fs[0],
                            ledger_server: fs[1],
                            open_count: n,
                        },
                    ),
                }
            } else {
                None
            },
        }
    }

    proof fn lemma_key_round_trip(k: Seq<char>) {
    }

    proof fn lemma_value_round_trip(v: CliConfigView) {
        let fs = seq![v.submission_server, v.ledger_server, spec_digits(v.open_count as nat)];
        lemma_fields_round_trip(fs);
        lemma_spec_digits_all_digits(v.open_count as nat);
        lemma_spec_digits_value(v.open_count as nat);
    }

    fn table_name() -> (r: String) {
        String::from_str("config")
    }

    fn encode_key(k: &String) -> (r: String) {
        k.clone()
    }

    fn encode_value(&self) -> (r: String) {
        let mut fields: Vec<String> = Vec::new();
        fields.push(self.submission_server.clone());
        fields.push(self.ledger_server.clone());
        fields.push(digits_string(self.open_count));
        proof {
            assert(fields.deep_view() =~= seq![
                self.submission_server@,
                self.ledger_server@,
                spec_digits(self.open_count as nat),
            ]);
        }
        encode_fields(&fields)
    }

    fn decode_key(s: &str) -> (r: Option<String>) {
        Some(s.to_owned())
    }

    fn decode_value(s: &str) -> (r: Option<CliConfig>) {
        let fields = match decode_fields(s) {
            None => {
                return None;
            },
            Some(v) => v,
        };
        if fields.len() != 3 {
            return None;
        }
        let n = match parse_u64_str(fields[2].as_str()) {
            None => {
                return None;
            },
            Some(x) => x,
        };
        let r = CliConfig {
            submission_server: fields[0].clone(),
            ledger_server: fields[1].clone(),
            open_count: n,
        };
        proof {
            assert(fields.deep_view()[0] == fields@[0]@);
            assert(fields.deep_view()[1] == fields@[1]@);
            assert(fields.deep_view()[2] == fields@[2]@);
        }
        Some(r)
    }
}

// ---------------------------------------------------------------------------
// Public keys.
// ---------------------------------------------------------------------------

/// The textual form of a public key, stored under a `PubkeyName`.
#[derive(Clone, Debug, PartialEq, Eq)]
pub struct PublicKey(pub String);

impl View for PublicKey {
    type V = Seq<char>;

    open spec fn view(&self) -> Seq<char> {
        self.0@
    }
}

impl HasTable for PublicKey {
    type Key = PubkeyName;

    open spec fn table_name_spec() -> Seq<char> {
        "public_keys"@
    }

    proof fn lemma_table_name_canonical() {
        assert(is_canonical_name("public_keys"@)) by {
            reveal_strlit("public_keys");
        }
    }

    open spec fn key_enc_of(k: Seq<char>) -> Seq<char> {
        k
    }

    open spec fn value_enc_of(v: Seq<char>) -> Seq<char> {
        v
    }

    open spec fn key_dec_of(s: Seq<char>) -> Option<Seq<char>> {
        Some(s)
    }

    open spec fn value_dec_of(s: Seq<char>) -> Option<Seq<char>> {
        Some(s)
    }

    proof fn lemma_key_round_trip(k: Seq<char>) {
    }

    proof fn lemma_value_round_trip(v: Seq<char>) {
    }

    fn table_name() -> (r: String) {
        String::from_str("public_keys")
    }

    fn encode_key(k: &PubkeyName) -> (r: String) {
        k.0.clone()
    }

    fn encode_value(&self) -> (r: String) {
        self.0.clone()
    }

    fn decode_key(s: &str) -> (r: Option<PubkeyName>) {
        Some(PubkeyName(s.to_owned()))
    }

    fn decode_value(s: &str) -> (r: Option<PublicKey>) {
        Some(PublicKey(s.to_owned()))
    }
}

// ---------------------------------------------------------------------------
// Cached asset definitions.
// ---------------------------------------------------------------------------

/// A cached asset definition plus an optional human-readable issuer
/// nickname.
#[derive(Clone, Debug, PartialEq, Eq)]
pub struct AssetTypeEntry {
    pub asset: String,
    pub issuer_nick: Option<String>,
}

/// Ghost mirror of `AssetTypeEntry`.
pub struct AssetTypeEntryView {
    pub asset: Seq<char>,
    pub issuer_nick: Option<Seq<char>>,
}

impl View for AssetTypeEntry {
    type V = AssetTypeEntryView;

    open spec fn view(&self) -> AssetTypeEntryView {
        AssetTypeEntryView {
            asset: self.asset@,
            issuer_nick: match self.issuer_nick {
                Some(s) => Some(s@),
                None => None,
            },
        }
    }
}

impl HasTable for AssetTypeEntry {
    type Key = AssetTypeName;

    open spec fn table_name_spec() -> Seq<char> {
        "asset_types"@
    }

    proof fn lemma_table_name_canonical() {
        assert(is_canonical_name("asset_types"@)) by {
            reveal_strlit("asset_types");
        }
    }

    open spec fn key_enc_of(k: Seq<char>) -> Seq<char> {
        k
    }

    open spec fn value_enc_of(v: AssetTypeEntryView) -> Seq<char> {
        spec_encode_fields(seq![v.asset, spec_enc_opt_str(v.issuer_nick)])
    }

    open spec fn key_dec_of(s: Seq<char>) -> Option<Seq<char>> {
        Some(s)
    }

    open spec fn value_dec_of(s: Seq<char>) -> Option<AssetTypeEntryView> {
        match spec_fields(s) {
            None => None,
            Some(fs) => if fs.len() == 2 {
                match spec_dec_opt_str(fs[1]) {
                    None => None,
                    Some(nick) => Some(AssetTypeEntryView { asset: fs[0], issuer_nick: nick }),
                }
            } else {
                None
            },
        }
    }

    proof fn lemma_key_round_trip(k: Seq<char>) {
    }

    proof fn lemma_value_round_trip(v: AssetTypeEntryView) {
        let fs = seq![v.asset, spec_enc_opt_str(v.issuer_nick)];
        lemma_fields_round_trip(fs);
        lemma_opt_str_round_trip(v.issuer_nick);
    }

    fn table_name() -> (r: String) {
        String::from_str("asset_types")
    }

    fn encode_key(k: &AssetTypeName) -> (r: String) {
        k.0.clone()
    }

    fn encode_value(&self) -> (r: String) {
        let mut fields: Vec<String> = Vec::new();
        fields.push(self.asset.clone());
        fields.push(enc_opt_str(&self.issuer_nick));
        proof {
            assert(fields.deep_view() =~= seq![
                self.asset@,
                spec_enc_opt_str(self@.issuer_nick),
            ]);
        }
        encode_fields(&fields)
    }

    fn decode_key(s: &str) -> (r: Option<AssetTypeName>) {
        Some(AssetTypeName(s.to_owned()))
    }

    fn decode_value(s: &str) -> (r: Option<AssetTypeEntry>) {
        let fields = match decode_fields(s) {
            None => {
                return None;
            },
            Some(v) => v,
        };
        if fields.len() != 2 {
            return None;
        }
        let nick = match dec_opt_str(fields[1].as_str()) {
            None => {
                return None;
            },
            Some(o) => o,
        };
        let r = AssetTypeEntry { asset: fields[0].clone(), issuer_nick: nick };
        proof {
            assert(fields.deep_view()[0] == fields@[0]@);
            assert(fields.deep_view()[1] == fields@[1]@);
        }
        Some(r)
    }
}

// ---------------------------------------------------------------------------
// Cached transaction outputs.
// ---------------------------------------------------------------------------

/// A locally cached unspent output, optionally holding its ledger position
/// and its opened form.
#[derive(Clone, Debug, PartialEq, Eq)]
pub struct TxoCacheEntry {
    pub sid: Option<u64>,
    pub record: String,
    pub owner_memo: Option<String>,
    pub opened_record: Option<String>,
    pub unspent: bool,
}

/// Ghost mirror of `TxoCacheEntry`.
pub struct TxoCacheEntryView {
    pub sid: Option<u64>,
    pub record: Seq<char>,
    pub owner_memo: Option<Seq<char>>,
    pub opened_record: Option<Seq<char>>,
    pub unspent: bool,
}

impl View for TxoCacheEntry {
    type V = TxoCacheEntryView;

    open spec fn view(&self) -> TxoCacheEntryView {
        TxoCacheEntryView {
            sid: self.sid,
            record: self.record@,
            owner_memo: match self.owner_memo {
                Some(s) => Some(s@),
                None => None,
            },
            opened_record: match self.opened_record {
                Some(s) => Some(s@),
                None => None,
            },
            unspent: self.unspent,
        }
    }
}

impl HasTable for TxoCacheEntry {
    type Key = TxoName;

    open spec fn table_name_spec() -> Seq<char> {
        "txo_cache"@
    }

    proof fn lemma_table_name_canonical() {
        assert(is_canonical_name("txo_cache"@)) by {
            reveal_strlit("txo_cache");
        }
    }

    open spec fn key_enc_of(k: Seq<char>) -> Seq<char> {
        k
    }

    open spec fn value_enc_of(v: TxoCacheEntryView) -> Seq<char> {
        spec_encode_fields(
            seq![
                spec_enc_opt_u64(v.sid),
                v.record,
                spec_enc_opt_str(v.owner_memo),
                spec_enc_opt_str(v.opened_record),
                spec_enc_bool(v.unspent),
            ],
        )
    }

    open spec fn key_dec_of(s: Seq<char>) -> Option<Seq<char>> {
        Some(s)
    }

    open spec fn value_dec_of(s: Seq<char>) -> Option<TxoCacheEntryView> {
        match spec_fields(s) {
            None => None,
            Some(fs) => if fs.len() == 5 {
                match (spec_dec_opt_u64(fs[0]), spec_dec_opt_str(fs[2]), spec_dec_opt_str(fs[3]),
                spec_dec_bool(fs[4])) {
                    (Some(sid), Some(memo), Some(opened), Some(unspent)) => Some(
                        TxoCacheEntryView {
                            sid,
                            record: fs[1],
                            owner_memo: memo,
                            opened_record: opened,
                            unspent,
                        },
                    ),
                    _ => None,
                }
            } else {
                None
            },
        }
    }

    proof fn lemma_key_round_trip(k: Seq<char>) {
    }

    proof fn lemma_value_round_trip(v: TxoCacheEntryView) {
        let fs = seq![
            spec_enc_opt_u64(v.sid),
            v.record,
            spec_enc_opt_str(v.owner_memo),
            spec_enc_opt_str(v.opened_record),
            spec_enc_bool(v.unspent),
        ];
        lemma_fields_round_trip(fs);
        lemma_opt_u64_round_trip(v.sid);
        lemma_opt_str_round_trip(v.owner_memo);
        lemma_opt_str_round_trip(v.opened_record);
    }

    fn table_name() -> (r: String) {
        String::from_str("txo_cache")
    }

    fn encode_key(k: &TxoName) -> (r: String) {
        k.0.clone()
    }

    fn encode_value(&self) -> (r: String) {
        let mut fields: Vec<String> = Vec::new();
        fields.push(enc_opt_u64(&self.sid));
        fields.push(self.record.clone());
        fields.push(enc_opt_str(&self.owner_memo));
        fields.push(enc_opt_str(&self.opened_record));
        fields.push(enc_bool(self.unspent));
        proof {
            assert(fields.deep_view() =~= seq![
                spec_enc_opt_u64(self@.sid),
                self@.record,
                spec_enc_opt_str(self@.owner_memo),
                spec_enc_opt_str(self@.opened_record),
                spec_enc_bool(self@.unspent),
            ]);
        }
        encode_fields(&fields)
    }

    fn decode_key(s: &str) -> (r: Option<TxoName>) {
        Some(TxoName(s.to_owned()))
    }

    fn decode_value(s: &str) -> (r: Option<TxoCacheEntry>) {
        let fields = match decode_fields(s) {
            None => {
                return None;
            },
            Some(v) => v,
        };
        if fields.len() != 5 {
            return None;
        }
        let sid = match dec_opt_u64(fields[0].as_str()) {
            None => {
                return None;
            },
            Some(o) => o,
        };
        let memo = match dec_opt_str(fields[2].as_str()) {
            None => {
                return None;
            },
            Some(o) => o,
        };
        let opened = match dec_opt_str(fields[3].as_str()) {
            None => {
                return None;
            },
            Some(o) => o,
        };
        let unspent = match dec_bool(fields[4].as_str()) {
            None => {
                return None;
            },
            Some(b) => b,
        };
        let r = TxoCacheEntry {
            sid,
            record: fields[1].clone(),
            owner_memo: memo,
            opened_record: opened,
            unspent,
        };
        proof {
            assert(fields.deep_view()[0] == fields@[0]@);
            assert(fields.deep_view()[1] == fields@[1]@);
            assert(fields.deep_view()[2] == fields@[2]@);
            assert(fields.deep_view()[3] == fields@[3]@);
            assert(fields.deep_view()[4] == fields@[4]@);
        }
        Some(r)
    }
}

// ---------------------------------------------------------------------------
// Lists of (nickname, entry) pairs, nested inside one field.
// ---------------------------------------------------------------------------

/// The view of a list of keyed entries.
pub open spec fn pairs_view<T: HasTable>(l: Seq<(T::Key, T)>) -> Seq<
    (<T::Key as View>::V, T::V),
> {
    Seq::new(l.len(), |i: int| (l[i].0@, l[i].1@))
}

/// Flattened fields of a keyed-entry list: key then entry, pair by pair.
pub open spec fn spec_pair_fields<T: HasTable>(l: Seq<(<T::Key as View>::V, T::V)>) -> Seq<
    Seq<char>,
>
    decreases l.len(),
{
    if l.len() == 0 {
        Seq::empty()
    } else {
        seq![T::key_enc_of(l.first().0), T::value_enc_of(l.first().1)] + spec_pair_fields::<T>(
            l.drop_first(),
        )
    }
}

/// Rebuild a keyed-entry list from its flattened fields.
pub open spec fn spec_dec_pair_fields<T: HasTable>(fs: Seq<Seq<char>>) -> Option<
    Seq<(<T::Key as View>::V, T::V)>,
>
    decreases fs.len(),
{
    if fs.len() == 0 {
        Some(Seq::empty())
    } else if fs.len() == 1 {
        None
    } else {
        match (T::key_dec_of(fs[0]), T::value_dec_of(fs[1])) {
            (Some(k), Some(v)) => match spec_dec_pair_fields::<T>(fs.skip(2)) {
                None => None,
                Some(rest) => Some(seq![(k, v)] + rest),
            },
            _ => None,
        }
    }
}

/// A whole keyed-entry list in one field.
pub open spec fn spec_enc_pairs<T: HasTable>(l: Seq<(<T::Key as View>::V, T::V)>) -> Seq<char> {
    spec_encode_fields(spec_pair_fields::<T>(l))
}

pub open spec fn spec_dec_pairs<T: HasTable>(s: Seq<char>) -> Option<
    Seq<(<T::Key as View>::V, T::V)>,
> {
    match spec_fields(s) {
        None => None,
        Some(fs) => spec_dec_pair_fields::<T>(fs),
    }
}

proof fn lemma_dec_pair_fields<T: HasTable>(l: Seq<(<T::Key as View>::V, T::V)>)
    ensures
        spec_dec_pair_fields::<T>(spec_pair_fields::<T>(l)) == Some(l),
    decreases l.len(),
{
    if l.len() > 0 {
        let fs = spec_pair_fields::<T>(l);
        let rest = spec_pair_fields::<T>(l.drop_first());
        T::lemma_key_round_trip(l.first().0);
        T::lemma_value_round_trip(l.first().1);
        assert(fs[0] == T::key_enc_of(l.first().0));
        assert(fs[1] == T::value_enc_of(l.first().1));
        assert(fs.skip(2) =~= rest);
        lemma_dec_pair_fields::<T>(l.drop_first());
        assert(seq![(l.first().0, l.first().1)] + l.drop_first() =~= l);
    }
}

pub proof fn lemma_pairs_round_trip<T: HasTable>(l: Seq<(<T::Key as View>::V, T::V)>)
    ensures
        spec_dec_pairs::<T>(spec_enc_pairs::<T>(l)) == Some(l),
{
    lemma_fields_round_trip(spec_pair_fields::<T>(l));
    lemma_dec_pair_fields::<T>(l);
}

/// Flattening grows at the back as the list grows at the back.
proof fn lemma_pair_fields_push<T: HasTable>(
    l: Seq<(<T::Key as View>::V, T::V)>,
    p: (<T::Key as View>::V, T::V),
)
    ensures
        spec_pair_fields::<T>(l.push(p)) == spec_pair_fields::<T>(l) + seq![
            T::key_enc_of(p.0),
            T::value_enc_of(p.1),
        ],
    decreases l.len(),
{
    if l.len() == 0 {
        assert(l.push(p).first() == p);
        assert(l.push(p).drop_first() =~= Seq::<(<T::Key as View>::V, T::V)>::empty());
        assert(spec_pair_fields::<T>(l.push(p)) == seq![
            T::key_enc_of(l.push(p).first().0),
            T::value_enc_of(l.push(p).first().1),
        ] + spec_pair_fields::<T>(l.push(p).drop_first()));
        assert(spec_pair_fields::<T>(Seq::<(<T::Key as View>::V, T::V)>::empty())
            == Seq::<Seq<char>>::empty());
        assert(spec_pair_fields::<T>(l.push(p)) =~= seq![
            T::key_enc_of(p.0),
            T::value_enc_of(p.1),
        ]);
        assert(spec_pair_fields::<T>(l) + seq![T::key_enc_of(p.0), T::value_enc_of(p.1)] =~= seq![
            T::key_enc_of(p.0),
            T::value_enc_of(p.1),
        ]);
    } else {
        assert(l.push(p).first() == l.first());
        assert(l.push(p).drop_first() =~= l.drop_first().push(p));
        lemma_pair_fields_push::<T>(l.drop_first(), p);
        assert(seq![T::key_enc_of(l.first().0), T::value_enc_of(l.first().1)] + (
        spec_pair_fields::<T>(l.drop_first()) + seq![T::key_enc_of(p.0), T::value_enc_of(p.1)])
            =~= (seq![T::key_enc_of(l.first().0), T::value_enc_of(l.first().1)]
            + spec_pair_fields::<T>(l.drop_first())) + seq![
            T::key_enc_of(p.0),
            T::value_enc_of(p.1),
        ]);
    }
}

/// Encode a keyed-entry list into one field.
pub fn encode_pairs<T: HasTable>(l: &Vec<(T::Key, T)>) -> (r: String)
    ensures
        r@ == spec_enc_pairs::<T>(pairs_view::<T>(l@)),
{
    let mut fields: Vec<String> = Vec::new();
    let mut i: usize = 0;
    proof {
        assert(pairs_view::<T>(l@.take(0)) =~= Seq::<(<T::Key as View>::V, T::V)>::empty());
        assert(fields.deep_view() =~= Seq::<Seq<char>>::empty());
    }
    while i < l.len()
        invariant
            0 <= i <= l@.len(),
            fields.deep_view() == spec_pair_fields::<T>(pairs_view::<T>(l@.take(i as int))),
        decreases l@.len() - i,
    {
        let ghost fields0 = fields.deep_view();
        fields.push(T::encode_key(&l[i].0));
        fields.push(l[i].1.encode_value());
        i = i + 1;
        proof {
            lemma_pair_fields_push::<T>(
                pairs_view::<T>(l@.take(i - 1)),
                (l@[i - 1].0@, l@[i - 1].1@),
            );
            assert(pairs_view::<T>(l@.take(i as int)) =~= pairs_view::<T>(l@.take(i - 1)).push(
                (l@[i - 1].0@, l@[i - 1].1@),
            ));
            assert(fields.deep_view() =~= fields0 + seq![
                T::key_enc_of(l@[i - 1].0@),
                T::value_enc_of(l@[i - 1].1@),
            ]);
        }
    }
    proof {
        assert(l@.take(l@.len() as int) =~= l@);
    }
    encode_fields(&fields)
}

/// Decode a keyed-entry list from one field.
pub fn decode_pairs<T: HasTable>(s: &str) -> (r: Option<Vec<(T::Key, T)>>)
    ensures
        r is Some <==> spec_dec_pairs::<T>(s@) is Some,
        r is Some ==> spec_dec_pairs::<T>(s@) == Some(pairs_view::<T>((r->0)@)),
{
    let fields = match decode_fields(s) {
        None => {
            return None;
        },
        Some(v) => v,
    };
    let ghost deep = fields.deep_view();
    let n = fields.len();
    let mut out: Vec<(T::Key, T)> = Vec::new();
    let mut i: usize = 0;
    proof {
        assert(deep.skip(0) =~= deep);
        assert(pairs_view::<T>(out@) =~= Seq::<(<T::Key as View>::V, T::V)>::empty());
        assert forall|rest: Seq<(<T::Key as View>::V, T::V)>|
            spec_dec_pair_fields::<T>(deep.skip(0)) == Some(rest) implies spec_dec_pair_fields::<
            T,
        >(deep) == Some(pairs_view::<T>(out@) + rest) by {
            assert(pairs_view::<T>(out@) + rest =~= rest);
        }
    }
    while i < n
        invariant
            0 <= i <= n,
            n == deep.len(),
            deep == fields.deep_view(),
            spec_fields(s@) == Some(deep),
            forall|rest: Seq<(<T::Key as View>::V, T::V)>|
                spec_dec_pair_fields::<T>(deep.skip(i as int)) == Some(rest)
                    ==> spec_dec_pair_fields::<T>(deep) == Some(pairs_view::<T>(out@) + rest),
            spec_dec_pair_fields::<T>(deep.skip(i as int)) is None ==> spec_dec_pair_fields::<T>(
                deep,
            ) is None,
        decreases n - i,
    {
        let ghost ds = deep.skip(i as int);
        proof {
            assert(ds[0] == deep[i as int]);
        }
        if i + 1 >= n {
            return None;
        }
        proof {
            assert(ds[1] == deep[i + 1]);
        }
        let k = match T::decode_key(fields[i].as_str()) {
            None => {
                return None;
            },
            Some(k) => k,
        };
        let v = match T::decode_value(fields[i + 1].as_str()) {
            None => {
                return None;
            },
            Some(v) => v,
        };
        let ghost out0 = pairs_view::<T>(out@);
        let ghost gk = k@;
        let ghost gv = v@;
        out.push((k, v));
        i = i + 2;
        proof {
            assert(ds.skip(2) =~= deep.skip(i as int));
            assert(pairs_view::<T>(out@) =~= out0.push((gk, gv)));
            assert forall|rest: Seq<(<T::Key as View>::V, T::V)>|
                spec_dec_pair_fields::<T>(deep.skip(i as int)) == Some(rest)
                    implies spec_dec_pair_fields::<T>(deep) == Some(
                pairs_view::<T>(out@) + rest,
            ) by {
                assert(spec_dec_pair_fields::<T>(ds) == Some(seq![(gk, gv)] + rest));
                assert(out0 + (seq![(gk, gv)] + rest) =~= out0.push((gk, gv)) + rest);
            }
        }
    }
    proof {
        assert(deep.skip(n as int) =~= Seq::<Seq<char>>::empty());
        assert(pairs_view::<T>(out@) + Seq::<(<T::Key as View>::V, T::V)>::empty() =~= pairs_view::<
            T,
        >(out@));
    }
    Some(out)
}

// ---------------------------------------------------------------------------
// Transactions.
// ---------------------------------------------------------------------------

/// A finalized transaction: the ledger sequence number it was built
/// against and its accumulated operations.
#[derive(Clone, Debug, PartialEq, Eq)]
pub struct TxnRecord {
    pub seq_id: u64,
    pub operations: Vec<String>,
}

/// Ghost mirror of `TxnRecord`.
pub struct TxnRecordView {
    pub seq_id: u64,
    pub operations: Seq<Seq<char>>,
}

impl View for TxnRecord {
    type V = TxnRecordView;

    open spec fn view(&self) -> TxnRecordView {
        TxnRecordView { seq_id: self.seq_id, operations: self.operations.deep_view() }
    }
}

pub open spec fn spec_enc_txn_record(v: TxnRecordView) -> Seq<char> {
    spec_encode_fields(seq![spec_digits(v.seq_id as nat), spec_encode_fields(v.operations)])
}

pub open spec fn spec_dec_txn_record(s: Seq<char>) -> Option<TxnRecordView> {
    match spec_fields(s) {
        None => None,
        Some(fs) => if fs.len() == 2 {
            match (spec_parse_u64(fs[0]), spec_fields(fs[1])) {
                (Some(n), Some(ops)) => Some(TxnRecordView { seq_id: n, operations: ops }),
                _ => None,
            }
        } else {
            None
        },
    }
}

pub proof fn lemma_txn_record_round_trip(v: TxnRecordView)
    ensures
        spec_dec_txn_record(spec_enc_txn_record(v)) == Some(v),
{
    let fs = seq![spec_digits(v.seq_id as nat), spec_encode_fields(v.operations)];
    lemma_fields_round_trip(fs);
    lemma_spec_digits_all_digits(v.seq_id as nat);
    lemma_spec_digits_value(v.seq_id as nat);
    lemma_fields_round_trip(v.operations);
}

/// Encode a finalized transaction.
pub fn encode_txn_record(t: &TxnRecord) -> (r: String)
    ensures
        r@ == spec_enc_txn_record(t@),
{
    let mut fields: Vec<String> = Vec::new();
    fields.push(digits_string(t.seq_id));
    fields.push(encode_fields(&t.operations));
    proof {
        assert(fields.deep_view() =~= seq![
            spec_digits(t.seq_id as nat),
            spec_encode_fields(t.operations.deep_view()),
        ]);
    }
    encode_fields(&fields)
}

/// Decode a finalized transaction.
pub fn decode_txn_record(s: &str) -> (r: Option<TxnRecord>)
    ensures
        r is Some <==> spec_dec_txn_record(s@) is Some,
        r is Some ==> spec_dec_txn_record(s@) == Some((r->0)@),
{
    let fields = match decode_fields(s) {
        None => {
            return None;
        },
        Some(v) => v,
    };
    if fields.len() != 2 {
        return None;
    }
    let n = match parse_u64_str(fields[0].as_str()) {
        None => {
            return None;
        },
        Some(x) => x,
    };
    let ops = match decode_fields(fields[1].as_str()) {
        None => {
            proof {
                assert(fields.deep_view()[1] == fields@[1]@);
            }
            return None;
        },
        Some(v) => v,
    };
    proof {
        assert(fields.deep_view()[0] == fields@[0]@);
        assert(fields.deep_view()[1] == fields@[1]@);
    }
    Some(TxnRecord { seq_id: n, operations: ops })
}

/// Status and handle attached to a finalized transaction once submitted,
/// plus the asset types it defined.
#[derive(Debug, PartialEq, Eq)]
pub struct TxnMetadata {
    pub handle: Option<String>,
    pub status: Option<String>,
    pub new_asset_types: Vec<(AssetTypeName, AssetTypeEntry)>,
}

/// Ghost mirror of `TxnMetadata`.
pub struct TxnMetadataView {
    pub handle: Option<Seq<char>>,
    pub status: Option<Seq<char>>,
    pub new_asset_types: Seq<(Seq<char>, AssetTypeEntryView)>,
}

impl View for TxnMetadata {
    type V = TxnMetadataView;

    open spec fn view(&self) -> TxnMetadataView {
        TxnMetadataView {
            handle: match self.handle {
                Some(s) => Some(s@),
                None => None,
            },
            status: match self.status {
                Some(s) => Some(s@),
                None => None,
            },
            new_asset_types: pairs_view::<AssetTypeEntry>(self.new_asset_types@),
        }
    }
}

impl Clone for TxnMetadata {
    /// A field-for-field copy with the same view.
    fn clone(&self) -> (r: TxnMetadata)
        ensures
            r@ == self@,
    {
        let handle = match &self.handle {
            None => None,
            Some(s) => Some(s.clone()),
        };
        let status = match &self.status {
            None => None,
            Some(s) => Some(s.clone()),
        };
        let mut nats: Vec<(AssetTypeName, AssetTypeEntry)> = Vec::new();
        let mut i: usize = 0;
        while i < self.new_asset_types.len()
            invariant
                0 <= i <= self.new_asset_types@.len(),
                nats@.len() == i,
                forall|a: int|
                    0 <= a < i ==> (#[trigger] nats@[a]).0@ == self.new_asset_types@[a].0@
                        && nats@[a].1@ == self.new_asset_types@[a].1@,
            decreases self.new_asset_types@.len() - i,
        {
            let p = &self.new_asset_types[i];
            let nick = match &p.1.issuer_nick {
                None => None,
                Some(s) => Some(s.clone()),
            };
            nats.push(
                (AssetTypeName(p.0.0.clone()), AssetTypeEntry {
                    asset: p.1.asset.clone(),
                    issuer_nick: nick,
                }),
            );
            i = i + 1;
        }
        let r = TxnMetadata { handle, status, new_asset_types: nats };
        proof {
            assert(r@.new_asset_types =~= self@.new_asset_types);
        }
        r
    }
}

impl Default for TxnMetadata {
    /// A fresh metadata record: no handle, unset status, nothing defined.
    fn default() -> (r: TxnMetadata)
        ensures
            r@ == (TxnMetadataView {
                handle: None,
                status: None,
                new_asset_types: Seq::empty(),
            }),
    {
        let r = TxnMetadata { handle: None, status: None, new_asset_types: Vec::new() };
        proof {
            assert(r@.new_asset_types =~= Seq::<(Seq<char>, AssetTypeEntryView)>::empty());
        }
        r
    }
}

pub open spec fn spec_enc_txn_metadata(v: TxnMetadataView) -> Seq<char> {
    spec_encode_fields(
        seq![
            spec_enc_opt_str(v.handle),
            spec_enc_opt_str(v.status),
            spec_enc_pairs::<AssetTypeEntry>(v.new_asset_types),
        ],
    )
}

pub open spec fn spec_dec_txn_metadata(s: Seq<char>) -> Option<TxnMetadataView> {
    match spec_fields(s) {
        None => None,
        Some(fs) => if fs.len() == 3 {
            match (spec_dec_opt_str(fs[0]), spec_dec_opt_str(fs[1]), spec_dec_pairs::<
                AssetTypeEntry,
            >(fs[2])) {
                (Some(handle), Some(status), Some(nats)) => Some(
                    TxnMetadataView { handle, status, new_asset_types: nats },
                ),
                _ => None,
            }
        } else {
            None
        },
    }
}

pub proof fn lemma_txn_metadata_round_trip(v: TxnMetadataView)
    ensures
        spec_dec_txn_metadata(spec_enc_txn_metadata(v)) == Some(v),
{
    let fs = seq![
        spec_enc_opt_str(v.handle),
        spec_enc_opt_str(v.status),
        spec_enc_pairs::<AssetTypeEntry>(v.new_asset_types),
    ];
    lemma_fields_round_trip(fs);
    lemma_opt_str_round_trip(v.handle);
    lemma_opt_str_round_trip(v.status);
    lemma_pairs_round_trip::<AssetTypeEntry>(v.new_asset_types);
}

/// Encode transaction metadata.
pub fn encode_txn_metadata(m: &TxnMetadata) -> (r: String)
    ensures
        r@ == spec_enc_txn_metadata(m@),
{
    let mut fields: Vec<String> = Vec::new();
    fields.push(enc_opt_str(&m.handle));
    fields.push(enc_opt_str(&m.status));
    fields.push(encode_pairs::<AssetTypeEntry>(&m.new_asset_types));
    proof {
        assert(fields.deep_view() =~= seq![
            spec_enc_opt_str(m@.handle),
            spec_enc_opt_str(m@.status),
            spec_enc_pairs::<AssetTypeEntry>(m@.new_asset_types),
        ]);
    }
    encode_fields(&fields)
}

/// Decode transaction metadata.
pub fn decode_txn_metadata(s: &str) -> (r: Option<TxnMetadata>)
    ensures
        r is Some <==> spec_dec_txn_metadata(s@) is Some,
        r is Some ==> spec_dec_txn_metadata(s@) == Some((r->0)@),
{
    let fields = match decode_fields(s) {
        None => {
            return None;
        },
        Some(v) => v,
    };
    if fields.len() != 3 {
        return None;
    }
    proof {
        assert(fields.deep_view()[0] == fields@[0]@);
        assert(fields.deep_view()[1] == fields@[1]@);
        assert(fields.deep_view()[2] == fields@[2]@);
    }
    let handle = match dec_opt_str(fields[0].as_str()) {
        None => {
            return None;
        },
        Some(o) => o,
    };
    let status = match dec_opt_str(fields[1].as_str()) {
        None => {
            return None;
        },
        Some(o) => o,
    };
    let nats = match decode_pairs::<AssetTypeEntry>(fields[2].as_str()) {
        None => {
            return None;
        },
        Some(v) => v,
    };
    Some(TxnMetadata { handle, status, new_asset_types: nats })
}

/// A finalized transaction beside its metadata, stored under a `TxnName`.
#[derive(Clone, Debug, PartialEq, Eq)]
pub struct TxnEntry {
    pub txn: TxnRecord,
    pub metadata: TxnMetadata,
}

/// Ghost mirror of `TxnEntry`.
pub struct TxnEntryView {
    pub txn: TxnRecordView,
    pub metadata: TxnMetadataView,
}

impl View for TxnEntry {
    type V = TxnEntryView;

    open spec fn view(&self) -> TxnEntryView {
        TxnEntryView { txn: self.txn@, metadata: self.metadata@ }
    }
}

impl HasTable for TxnEntry {
    type Key = TxnName;

    open spec fn table_name_spec() -> Seq<char> {
        "transactions"@
    }

    proof fn lemma_table_name_canonical() {
        assert(is_canonical_name("transactions"@)) by {
            reveal_strlit("transactions");
        }
    }

    open spec fn key_enc_of(k: Seq<char>) -> Seq<char> {
        k
    }

    open spec fn value_enc_of(v: TxnEntryView) -> Seq<char> {
        spec_encode_fields(seq![spec_enc_txn_record(v.txn), spec_enc_txn_metadata(v.metadata)])
    }

    open spec fn key_dec_of(s: Seq<char>) -> Option<Seq<char>> {
        Some(s)
    }

    open spec fn value_dec_of(s: Seq<char>) -> Option<TxnEntryView> {
        match spec_fields(s) {
            None => None,
            Some(fs) => if fs.len() == 2 {
                match (spec_dec_txn_record(fs[0]), spec_dec_txn_metadata(fs[1])) {
                    (Some(txn), Some(metadata)) => Some(TxnEntryView { txn, metadata }),
                    _ => None,
                }
            } else {
                None
            },
        }
    }

    proof fn lemma_key_round_trip(k: Seq<char>) {
    }

    proof fn lemma_value_round_trip(v: TxnEntryView) {
        let fs = seq![spec_enc_txn_record(v.txn), spec_enc_txn_metadata(v.metadata)];
        lemma_fields_round_trip(fs);
        lemma_txn_record_round_trip(v.txn);
        lemma_txn_metadata_round_trip(v.metadata);
    }

    fn table_name() -> (r: String) {
        String::from_str("transactions")
    }

    fn encode_key(k: &TxnName) -> (r: String) {
        k.0.clone()
    }

    fn encode_value(&self) -> (r: String) {
        let mut fields: Vec<String> = Vec::new();
        fields.push(encode_txn_record(&self.txn));
        fields.push(encode_txn_metadata(&self.metadata));
        proof {
            assert(fields.deep_view() =~= seq![
                spec_enc_txn_record(self@.txn),
                spec_enc_txn_metadata(self@.metadata),
            ]);
        }
        encode_fields(&fields)
    }

    fn decode_key(s: &str) -> (r: Option<TxnName>) {
        Some(TxnName(s.to_owned()))
    }

    fn decode_value(s: &str) -> (r: Option<TxnEntry>) {
        let fields = match decode_fields(s) {
            None => {
                return None;
            },
            Some(v) => v,
        };
        if fields.len() != 2 {
            return None;
        }
        proof {
            assert(fields.deep_view()[0] == fields@[0]@);
            assert(fields.deep_view()[1] == fields@[1]@);
        }
        let txn = match decode_txn_record(fields[0].as_str()) {
            None => {
                return None;
            },
            Some(t) => t,
        };
        let metadata = match decode_txn_metadata(fields[1].as_str()) {
            None => {
                return None;
            },
            Some(m) => m,
        };
        Some(TxnEntry { txn, metadata })
    }
}

// ---------------------------------------------------------------------------
// Transaction builders.
// ---------------------------------------------------------------------------

/// A mutable, named, in-progress transaction accumulator: operations,
/// signers, spent and newly created outputs, and newly defined asset
/// types.
#[derive(Clone, Debug, PartialEq, Eq)]
pub struct TxnBuilderEntry {
    pub seq_id: u64,
    pub operations: Vec<String>,
    pub signers: Vec<String>,
    pub new_asset_types: Vec<(AssetTypeName, AssetTypeEntry)>,
    pub new_txos: Vec<(TxoName, TxoCacheEntry)>,
    pub spent_txos: Vec<String>,
}

/// Ghost mirror of `TxnBuilderEntry`.
pub struct TxnBuilderEntryView {
    pub seq_id: u64,
    pub operations: Seq<Seq<char>>,
    pub signers: Seq<Seq<char>>,
    pub new_asset_types: Seq<(Seq<char>, AssetTypeEntryView)>,
    pub new_txos: Seq<(Seq<char>, TxoCacheEntryView)>,
    pub spent_txos: Seq<Seq<char>>,
}

impl View for TxnBuilderEntry {
    type V = TxnBuilderEntryView;

    open spec fn view(&self) -> TxnBuilderEntryView {
        TxnBuilderEntryView {
            seq_id: self.seq_id,
            operations: self.operations.deep_view(),
            signers: self.signers.deep_view(),
            new_asset_types: pairs_view::<AssetTypeEntry>(self.new_asset_types@),
            new_txos: pairs_view::<TxoCacheEntry>(self.new_txos@),
            spent_txos: self.spent_txos.deep_view(),
        }
    }
}

impl TxnBuilderEntry {
    /// A fresh builder for the given ledger sequence number: nothing
    /// accumulated yet.
    pub fn from_seq_id(seq_id: u64) -> (r: TxnBuilderEntry)
        ensures
            r@ == (TxnBuilderEntryView {
                seq_id,
                operations: Seq::empty(),
                signers: Seq::empty(),
                new_asset_types: Seq::empty(),
                new_txos: Seq::empty(),
                spent_txos: Seq::empty(),
            }),
    {
        let r = TxnBuilderEntry {
            seq_id,
            operations: Vec::new(),
            signers: Vec::new(),
            new_asset_types: Vec::new(),
            new_txos: Vec::new(),
            spent_txos: Vec::new(),
        };
        proof {
            assert(r@.operations =~= Seq::<Seq<char>>::empty());
            assert(r@.signers =~= Seq::<Seq<char>>::empty());
            assert(r@.new_asset_types =~= Seq::<(Seq<char>, AssetTypeEntryView)>::empty());
            assert(r@.new_txos =~= Seq::<(Seq<char>, TxoCacheEntryView)>::empty());
            assert(r@.spent_txos =~= Seq::<Seq<char>>::empty());
        }
        r
    }

    /// The transaction this builder has accumulated so far.
    pub fn transaction(&self) -> (r: TxnRecord)
        ensures
            r@ == (TxnRecordView { seq_id: self@.seq_id, operations: self@.operations }),
    {
        TxnRecord { seq_id: self.seq_id, operations: self.operations.clone() }
    }
}

impl HasTable for TxnBuilderEntry {
    type Key = TxnBuilderName;

    open spec fn table_name_spec() -> Seq<char> {
        "transaction_builders"@
    }

    proof fn lemma_table_name_canonical() {
        assert(is_canonical_name("transaction_builders"@)) by {
            reveal_strlit("transaction_builders");
        }
    }

    open spec fn key_enc_of(k: Seq<char>) -> Seq<char> {
        k
    }

    open spec fn value_enc_of(v: TxnBuilderEntryView) -> Seq<char> {
        spec_encode_fields(
            seq![
                spec_digits(v.seq_id as nat),
                spec_encode_fields(v.operations),
                spec_encode_fields(v.signers),
                spec_enc_pairs::<AssetTypeEntry>(v.new_asset_types),
                spec_enc_pairs::<TxoCacheEntry>(v.new_txos),
                spec_encode_fields(v.spent_txos),
            ],
        )
    }

    open spec fn key_dec_of(s: Seq<char>) -> Option<Seq<char>> {
        Some(s)
    }

    open spec fn value_dec_of(s: Seq<char>) -> Option<TxnBuilderEntryView> {
        match spec_fields(s) {
            None => None,
            Some(fs) => if fs.len() == 6 {
                match (spec_parse_u64(fs[0]), spec_fields(fs[1]), spec_fields(fs[2]),
                spec_dec_pairs::<AssetTypeEntry>(fs[3]), spec_dec_pairs::<TxoCacheEntry>(fs[4]),
                spec_fields(fs[5])) {
                    (
                        Some(seq_id),
                        Some(operations),
                        Some(signers),
                        Some(nats),
                        Some(ntxos),
                        Some(spent),
                    ) => Some(
                        TxnBuilderEntryView {
                            seq_id,
                            operations,
                            signers,
                            new_asset_types: nats,
                            new_txos: ntxos,
                            spent_txos: spent,
                        },
                    ),
                    _ => None,
                }
            } else {
                None
            },
        }
    }

    proof fn lemma_key_round_trip(k: Seq<char>) {
    }

    proof fn lemma_value_round_trip(v: TxnBuilderEntryView) {
        let fs = seq![
            spec_digits(v.seq_id as nat),
            spec_encode_fields(v.operations),
            spec_encode_fields(v.signers),
            spec_enc_pairs::<AssetTypeEntry>(v.new_asset_types),
            spec_enc_pairs::<TxoCacheEntry>(v.new_txos),
            spec_encode_fields(v.spent_txos),
        ];
        lemma_fields_round_trip(fs);
        lemma_spec_digits_all_digits(v.seq_id as nat);
        lemma_spec_digits_value(v.seq_id as nat);
        lemma_fields_round_trip(v.operations);
        lemma_fields_round_trip(v.signers);
        lemma_pairs_round_trip::<AssetTypeEntry>(v.new_asset_types);
        lemma_pairs_round_trip::<TxoCacheEntry>(v.new_txos);
        lemma_fields_round_trip(v.spent_txos);
    }

    fn table_name() -> (r: String) {
        String::from_str("transaction_builders")
    }

    fn encode_key(k: &TxnBuilderName) -> (r: String) {
        k.0.clone()
    }

    fn encode_value(&self) -> (r: String) {
        let mut fields: Vec<String> = Vec::new();
        fields.push(digits_string(self.seq_id));
        fields.push(encode_fields(&self.operations));
        fields.push(encode_fields(&self.signers));
        fields.push(encode_pairs::<AssetTypeEntry>(&self.new_asset_types));
        fields.push(encode_pairs::<TxoCacheEntry>(&self.new_txos));
        fields.push(encode_fields(&self.spent_txos));
        proof {
            assert(fields.deep_view() =~= seq![
                spec_digits(self@.seq_id as nat),
                spec_encode_fields(self@.operations),
                spec_encode_fields(self@.signers),
                spec_enc_pairs::<AssetTypeEntry>(self@.new_asset_types),
                spec_enc_pairs::<TxoCacheEntry>(self@.new_txos),
                spec_encode_fields(self@.spent_txos),
            ]);
        }
        encode_fields(&fields)
    }

    fn decode_key(s: &str) -> (r: Option<TxnBuilderName>) {
        Some(TxnBuilderName(s.to_owned()))
    }

    fn decode_value(s: &str) -> (r: Option<TxnBuilderEntry>) {
        let fields = match decode_fields(s) {
            None => {
                return None;
            },
            Some(v) => v,
        };
        if fields.len() != 6 {
            return None;
        }
        proof {
            assert(fields.deep_view()[0] == fields@[0]@);
            assert(fields.deep_view()[1] == fields@[1]@);
            assert(fields.deep_view()[2] == fields@[2]@);
            assert(fields.deep_view()[3] == fields@[3]@);
            assert(fields.deep_view()[4] == fields@[4]@);
            assert(fields.deep_view()[5] == fields@[5]@);
        }
        let seq_id = match parse_u64_str(fields[0].as_str()) {
            None => {
                return None;
            },
            Some(x) => x,
        };
        let operations = match decode_fields(fields[1].as_str()) {
            None => {
                return None;
            },
            Some(v) => v,
        };
        let signers = match decode_fields(fields[2].as_str()) {
            None => {
                return None;
            },
            Some(v) => v,
        };
        let nats = match decode_pairs::<AssetTypeEntry>(fields[3].as_str()) {
            None => {
                return None;
            },
            Some(v) => v,
        };
        let ntxos = match decode_pairs::<TxoCacheEntry>(fields[4].as_str()) {
            None => {
                return None;
            },
            Some(v) => v,
        };
        let spent = match decode_fields(fields[5].as_str()) {
            None => {
                return None;
            },
            Some(v) => v,
        };
        Some(
            TxnBuilderEntry {
                seq_id,
                operations,
                signers,
                new_asset_types: nats,
                new_txos: ntxos,
                spent_txos: spent,
            },
        )
    }
}

} // verus!
