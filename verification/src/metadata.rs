use vstd::prelude::*;

verus! {

/// `std::time::SystemTime`, read from the system clock by [`unix_now`].
#[verifier::external_type_specification]
#[verifier::external_body]
pub struct ExSystemTime(std::time::SystemTime);

/// `std::time::SystemTimeError`, the clock reading lying before the Unix epoch.
#[verifier::external_type_specification]
#[verifier::external_body]
pub struct ExSystemTimeError(std::time::SystemTimeError);

/// A key-value list of game-specific strings, as plain character sequences.
pub type CustomModel = Seq<(Seq<char>, Seq<char>)>;

/// The value of a [`SaveMetadata`]: every field taken by its view.
pub struct MetadataModel {
    pub created_at: i64,
    pub updated_at: i64,
    pub play_time_bits: u64,
    pub description: Seq<char>,
    pub thumbnail: Option<Seq<u8>>,
    pub custom: CustomModel,
}

/// Rich metadata attached to every save file.
///
/// `custom` holds the game-specific key-value pairs; the builder methods
/// keep its keys pairwise distinct (see [`SaveMetadata::wf`]).
#[derive(Debug, Clone)]
pub struct SaveMetadata {
    /// Unix timestamp (seconds since epoch) when the save was created.
    pub created_at: i64,
    /// Unix timestamp when the save was last updated (overwritten).
    pub updated_at: i64,
    /// Total play time in seconds at the time of saving, as the bit pattern
    /// of an IEEE-754 double (`f64::to_bits`).
    pub play_time_bits: u64,
    /// Human-readable description (e.g. "Chapter 3 - Boss fight").
    pub description: String,
    /// Optional thumbnail as raw bytes (PNG/JPEG). Keep it small.
    pub thumbnail: Option<Vec<u8>>,
    /// Arbitrary key-value pairs for game-specific info
    /// (e.g. "level" = "12", "location" = "Dark Forest").
    pub custom: Vec<(String, String)>,
}

/// The character sequences of a list of string pairs.
pub open spec fn pairs_view(pairs: Seq<(String, String)>) -> CustomModel {
    pairs.map_values(|p: (String, String)| (p.0@, p.1@))
}

/// The bytes of an optional byte vector.
pub open spec fn opt_bytes_view(b: Option<Vec<u8>>) -> Option<Seq<u8>> {
    match b {
        Some(v) => Some(v@),
        None => None,
    }
}

impl View for SaveMetadata {
    type V = MetadataModel;

    open spec fn view(&self) -> MetadataModel {
        MetadataModel {
            created_at: self.created_at,
            updated_at: self.updated_at,
            play_time_bits: self.play_time_bits,
            description: self.description@,
            thumbnail: opt_bytes_view(self.thumbnail),
            custom: pairs_view(self.custom@),
        }
    }
}

/// No key occurs twice in `s`.
pub open spec fn keys_unique(s: CustomModel) -> bool {
    forall|i: int, j: int| 0 <= i < j < s.len() ==> s[i].0 != s[j].0
}

/// `k` is the key of some pair of `s`.
pub open spec fn has_key(s: CustomModel, k: Seq<char>) -> bool {
    exists|i: int| 0 <= i < s.len() && s[i].0 == k
}

/// The position of the pair with key `k` in `s` (meaningful when `has_key(s, k)`).
pub open spec fn key_position(s: CustomModel, k: Seq<char>) -> int {
    choose|i: int| 0 <= i < s.len() && s[i].0 == k
}

/// The value stored under `k`, if any.
pub open spec fn custom_get(s: CustomModel, k: Seq<char>) -> Option<Seq<char>> {
    if has_key(s, k) {
        Some(s[key_position(s, k)].1)
    } else {
        None
    }
}

/// Map-style insertion: the value of an existing key is replaced in place,
/// a new key is appended at the end.
pub open spec fn custom_insert(s: CustomModel, k: Seq<char>, v: Seq<char>) -> CustomModel {
    if has_key(s, k) {
        s.update(key_position(s, k), (k, v))
    } else {
        s.push((k, v))
    }
}

/// The list that inserting the pairs of `s` one after the other into an empty
/// list yields: the last value given for a key wins.
pub open spec fn custom_from_pairs(s: CustomModel) -> CustomModel
    decreases s.len(),
{
    if s.len() == 0 {
        s
    } else {
        custom_insert(custom_from_pairs(s.drop_last()), s.last().0, s.last().1)
    }
}

/// The metadata with its custom pairs normalized as by [`custom_from_pairs`].
pub open spec fn normalized(m: MetadataModel) -> MetadataModel {
    MetadataModel { custom: custom_from_pairs(m.custom), ..m }
}

/// Reading a pair back right after inserting it gives the inserted value,
/// every other key keeps its value, and keys stay pairwise distinct.
pub proof fn lemma_custom_insert_then_get(s: CustomModel, k: Seq<char>, v: Seq<char>, other: Seq<char>)
    requires
        keys_unique(s),
    ensures
        keys_unique(custom_insert(s, k, v)),
        custom_get(custom_insert(s, k, v), k) == Some(v),
        other != k ==> custom_get(custom_insert(s, k, v), other) == custom_get(s, other),
{
    let t = custom_insert(s, k, v);
    if has_key(s, k) {
        let p = key_position(s, k);
        assert(t[p].0 == k);
        assert(has_key(t, k));
        assert(keys_unique(t));
        let q = key_position(t, k);
        assert(q == p);
        if has_key(s, other) && other != k {
            let r = key_position(s, other);
            assert(t[r].0 == other);
            assert(has_key(t, other));
        }
        if has_key(t, other) && other != k {
            let r = key_position(t, other);
            assert(s[r].0 == other);
        }
    } else {
        let n = s.len() as int;
        assert(t[n].0 == k);
        assert(has_key(t, k));
        assert(keys_unique(t));
        if has_key(s, other) {
            let r = key_position(s, other);
            assert(t[r].0 == other);
        }
        if has_key(t, other) && other != k {
            let r = key_position(t, other);
            assert(r < n);
            assert(s[r].0 == other);
        }
    }
}

/// Normalizing a list whose keys are already distinct changes nothing.
pub proof fn lemma_custom_from_unique_pairs(s: CustomModel)
    requires
        keys_unique(s),
    ensures
        custom_from_pairs(s) == s,
    decreases s.len(),
{
    if s.len() > 0 {
        let init = s.drop_last();
        assert(keys_unique(init));
        lemma_custom_from_unique_pairs(init);
        if has_key(init, s.last().0) {
            let i = choose|i: int| 0 <= i < init.len() && init[i].0 == s.last().0;
            assert(s[i].0 == s[s.len() - 1].0);
        }
        assert(init.push(s.last()) =~= s);
    }
}

/// The keys of a normalized list are pairwise distinct.
pub proof fn lemma_custom_from_pairs_unique(s: CustomModel)
    ensures
        keys_unique(custom_from_pairs(s)),
    decreases s.len(),
{
    if s.len() > 0 {
        lemma_custom_from_pairs_unique(s.drop_last());
        lemma_custom_insert_then_get(custom_from_pairs(s.drop_last()), s.last().0, s.last().1, s.last().0);
    }
}

impl SaveMetadata {
    /// The custom keys are pairwise distinct, as in a map.
    pub open spec fn wf(&self) -> bool {
        keys_unique(self@.custom)
    }
}

/// Reads the system clock (`std::time::SystemTime::now`); nothing is claimed
/// of the reading.
#[verifier::external_body]
fn clock_now() -> std::time::SystemTime {
    std::time::SystemTime::now()
}

/// Time elapsed from the Unix epoch to `t` (`SystemTime::duration_since`
/// with `UNIX_EPOCH`); it fails when `t` lies before the epoch. Nothing is
/// claimed of the result, which depends on the clock reading.
#[verifier::external_body]
fn since_unix_epoch(t: &std::time::SystemTime) -> Result<std::time::Duration, std::time::SystemTimeError> {
    t.duration_since(std::time::UNIX_EPOCH)
}

/// Whole seconds of a duration (`Duration::as_secs`); nothing is claimed of
/// the result, as the duration is a clock reading.
#[verifier::external_body]
fn whole_seconds(d: &std::time::Duration) -> u64 {
    d.as_secs()
}

/// The timestamp recorded for an elapsed time since the epoch: its whole
/// seconds reinterpreted as `i64`, or 0 when the clock lay before the epoch.
pub fn unix_seconds(elapsed: Option<u64>) -> (t: i64)
    ensures
        t == match elapsed {
            Some(s) => s as i64,
            None => 0i64,
        },
{
    match elapsed {
        Some(s) => s as i64,
        None => 0,
    }
}

/// Current Unix timestamp in seconds, 0 if the clock lies before the epoch.
pub fn unix_now() -> i64 {
    let now = clock_now();
    let elapsed = match since_unix_epoch(&now) {
        Ok(d) => Some(whole_seconds(&d)),
        Err(_) => None,
    };
    unix_seconds(elapsed)
}

/// Insert `key => value` into a list of pairs with distinct keys: an existing
/// key has its value replaced where it stands, a new key goes to the end.
pub fn insert_custom(pairs: &mut Vec<(String, String)>, key: String, value: String)
    requires
        keys_unique(pairs_view(old(pairs)@)),
    ensures
        pairs_view(final(pairs)@) == custom_insert(pairs_view(old(pairs)@), key@, value@),
        keys_unique(pairs_view(final(pairs)@)),
{
    let ghost s = pairs_view(pairs@);
    proof {
        lemma_custom_insert_then_get(s, key@, value@, key@);
    }
    let n = pairs.len();
    let mut i: usize = 0;
    while i < n
        invariant
            n == pairs.len(),
            pairs@ == old(pairs)@,
            s == pairs_view(pairs@),
            keys_unique(s),
            0 <= i <= n,
            forall|j: int| 0 <= j < i ==> s[j].0 != key@,
        decreases n - i,
    {
        if pairs[i].0 == key {
            proof {
                assert(s[i as int].0 == key@);
                assert(has_key(s, key@));
                assert(key_position(s, key@) == i as int);
            }
            pairs.set(i, (key, value));
            proof {
                assert(pairs_view(pairs@) =~= s.update(i as int, (key@, value@)));
            }
            return;
        }
        i = i + 1;
    }
    proof {
        assert(!has_key(s, key@));
    }
    pairs.push((key, value));
    proof {
        assert(pairs_view(pairs@) =~= s.push((key@, value@)));
    }
}

/// Normalize a list of pairs as a map would hold it: later values of a
/// repeated key replace earlier ones.
pub fn custom_pairs_normalized(pairs: Vec<(String, String)>) -> (res: Vec<(String, String)>)
    ensures
        pairs_view(res@) == custom_from_pairs(pairs_view(pairs@)),
        keys_unique(pairs_view(res@)),
{
    let ghost s = pairs_view(pairs@);
    let mut rest = pairs;
    let mut out: Vec<(String, String)> = Vec::new();
    let ghost mut done: int = 0;
    proof {
        assert(s.take(0) =~= Seq::<(Seq<char>, Seq<char>)>::empty());
        assert(pairs_view(out@) =~= Seq::<(Seq<char>, Seq<char>)>::empty());
        assert(pairs_view(rest@) =~= s.skip(0));
    }
    while rest.len() > 0
        invariant
            0 <= done <= s.len(),
            pairs_view(rest@) == s.skip(done),
            pairs_view(out@) == custom_from_pairs(s.take(done)),
            keys_unique(pairs_view(out@)),
        decreases rest.len(),
    {
        let ghost before = rest@;
        proof {
            assert(pairs_view(before).len() == before.len());
            assert(done < s.len());
        }
        let (k, v) = rest.remove(0);
        proof {
            assert(rest@ =~= before.subrange(1, before.len() as int));
            assert(s.skip(done)[0] == (k@, v@));
            assert forall|j: int| 0 <= j < rest@.len() implies pairs_view(rest@)[j] == s.skip(done + 1)[j] by {
                assert(rest@[j] == before[j + 1]);
                assert(pairs_view(before)[j + 1] == s.skip(done)[j + 1]);
            }
            assert(pairs_view(rest@) =~= s.skip(done + 1));
            assert(s.take(done + 1).drop_last() =~= s.take(done));
            assert(s.take(done + 1).last() == (k@, v@));
            lemma_custom_from_pairs_unique(s.take(done + 1));
        }
        insert_custom(&mut out, k, v);
        proof {
            done = done + 1;
        }
    }
    proof {
        assert(s.take(done) =~= s);
    }
    out
}

impl SaveMetadata {
    /// Fresh metadata stamped with the current time: zero play time, empty
    /// description, no thumbnail, no custom pairs.
    pub fn new() -> (m: Self)
        ensures
            m.created_at == m.updated_at,
            m.play_time_bits == 0,
            m.description@ == Seq::<char>::empty(),
            m.thumbnail is None,
            m.custom@.len() == 0,
            m.wf(),
    {
        let now = unix_now();
        SaveMetadata {
            created_at: now,
            updated_at: now,
            play_time_bits: 0,
            description: String::new(),
            thumbnail: None,
            custom: Vec::new(),
        }
    }

    /// Replace the description.
    pub fn with_description(self, desc: &str) -> (m: Self)
        ensures
            m@ == (MetadataModel { description: desc@, ..self@ }),
    {
        let mut m = self;
        m.description = desc.to_owned();
        m
    }

    /// Replace the play time, given as the bit pattern of an `f64` number of seconds.
    pub fn with_play_time_bits(self, bits: u64) -> (m: Self)
        ensures
            m@ == (MetadataModel { play_time_bits: bits, ..self@ }),
    {
        let mut m = self;
        m.play_time_bits = bits;
        m
    }

    /// Attach a thumbnail image.
    pub fn with_thumbnail(self, data: Vec<u8>) -> (m: Self)
        ensures
            m@ == (MetadataModel { thumbnail: Some(data@), ..self@ }),
    {
        let mut m = self;
        m.thumbnail = Some(data);
        m
    }

    /// Set the custom value of `key` to `value`, replacing any earlier value.
    pub fn with_custom(self, key: &str, value: &str) -> (m: Self)
        requires
            self.wf(),
        ensures
            m@ == (MetadataModel { custom: custom_insert(self@.custom, key@, value@), ..self@ }),
            m.wf(),
    {
        let mut m = self;
        insert_custom(&mut m.custom, key.to_owned(), value.to_owned());
        m
    }

    /// The custom value stored under `key`, if any.
    pub fn custom_value(&self, key: &str) -> (v: Option<&String>)
        requires
            self.wf(),
        ensures
            match v {
                Some(s) => custom_get(self@.custom, key@) == Some(s@),
                None => custom_get(self@.custom, key@) is None,
            },
    {
        let ghost s = self@.custom;
        let wanted = key.to_owned();
        let n = self.custom.len();
        let mut i: usize = 0;
        while i < n
            invariant
                n == self.custom.len(),
                wanted@ == key@,
                s == pairs_view(self.custom@),
                keys_unique(s),
                0 <= i <= n,
                forall|j: int| 0 <= j < i ==> s[j].0 != key@,
            decreases n - i,
        {
            if self.custom[i].0 == wanted {
                proof {
                    assert(s[i as int].0 == key@);
                    assert(has_key(s, key@));
                    assert(key_position(s, key@) == i as int);
                }
                return Some(&self.custom[i].1);
            }
            i = i + 1;
        }
        None
    }
}

impl Default for SaveMetadata {
    /// Same as [`SaveMetadata::new`].
    fn default() -> (m: Self)
        ensures
            m.created_at == m.updated_at,
            m.play_time_bits == 0,
            m.description@ == Seq::<char>::empty(),
            m.thumbnail is None,
            m.custom@.len() == 0,
            m.wf(),
    {
        Self::new()
    }
}

} // verus!
