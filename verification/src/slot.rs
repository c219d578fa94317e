use crate::metadata::{MetadataModel, SaveMetadata};
use crate::save_file::{peek_metadata_bytes, peek_outcome, PeekOutcome};
use vstd::prelude::*;

verus! {

/// The slot that quick-save and quick-load use.
pub const QUICKSAVE_SLOT: &'static str = "quicksave";

/// The suffix of every slot file name: ".fxsave".
pub open spec fn slot_suffix() -> Seq<char> {
    seq!['.', 'f', 'x', 's', 'a', 'v', 'e']
}

/// The suffix of every slot backup file name: ".fxsave.bak".
pub open spec fn backup_suffix() -> Seq<char> {
    slot_suffix() + seq!['.', 'b', 'a', 'k']
}

/// The extension added after the temporary copy's name: ".tmp".
pub open spec fn tmp_ext() -> Seq<char> {
    seq!['.', 't', 'm', 'p']
}

/// A slot whose file name `<slot>.fxsave` is the bare `.fxsave`: the empty
/// slot, or one that ends with the directory separator `/`.
pub open spec fn bare_slot(slot: Seq<char>) -> bool {
    slot.len() == 0 || slot.last() == '/'
}

/// A slot whose last part (after the last `/`) is `.`: its file name
/// `<slot>.fxsave` ends in the part `..fxsave`.
pub open spec fn dot_slot(slot: Seq<char>) -> bool {
    &&& slot.len() >= 1
    &&& slot.last() == '.'
    &&& slot.len() == 1 || slot[slot.len() - 2] == '/'
}

/// The temporary file a new save of `slot` is first written to, as
/// `Path::with_extension("fxsave.tmp")` makes it from the slot file
/// `<slot>.fxsave`: the name up to and including the dot before `fxsave`,
/// then `fxsave.tmp` as the extension of that name, so `<slot>.fxsave.tmp`.
/// A bare `.fxsave` has no extension (its only dot starts the name), so
/// there `fxsave.tmp` is added after it: `<slot>.fxsave.fxsave.tmp`. For a
/// slot whose last part is `.`, the name up to the dot is the part `..`,
/// which takes no extension: `<slot>.`.
pub open spec fn temp_name(slot: Seq<char>) -> Seq<char> {
    if dot_slot(slot) {
        slot + seq!['.']
    } else if bare_slot(slot) {
        slot + slot_suffix() + slot_suffix() + tmp_ext()
    } else {
        slot + slot_suffix() + tmp_ext()
    }
}

/// The slot that a directory entry named `name` holds: the entries named
/// `<slot>.fxsave` with a non-empty `<slot>` (`.fxsave` is its extension).
pub open spec fn slot_of_file_name(name: Seq<char>) -> Option<Seq<char>> {
    let n = name.len();
    if n > 7 && name.subrange(n - 7, n as int) == slot_suffix() {
        Some(name.subrange(0, n - 7))
    } else {
        None
    }
}

/// Summary of a save slot for UI display.
#[derive(Debug, Clone)]
pub struct SlotInfo {
    pub name: String,
    pub metadata: SaveMetadata,
}

/// File name of the save file of `slot`: `<slot>.fxsave`.
pub fn slot_file_name(slot: &str) -> (name: String)
    ensures
        name@ == slot@ + slot_suffix(),
{
    let mut name = slot.to_owned();
    let suffix = ".fxsave";
    proof {
        reveal_strlit(".fxsave");
        assert(suffix@ =~= slot_suffix());
    }
    name.append(suffix);
    name
}

/// File name of the backup of `slot`: `<slot>.fxsave.bak`.
pub fn backup_file_name(slot: &str) -> (name: String)
    ensures
        name@ == slot@ + backup_suffix(),
{
    let mut name = slot.to_owned();
    let suffix = ".fxsave.bak";
    proof {
        reveal_strlit(".fxsave.bak");
        assert(suffix@ =~= backup_suffix());
    }
    name.append(suffix);
    name
}

/// File name of the temporary file that a new save of `slot` is written to
/// before it replaces the slot file.
pub fn temp_file_name(slot: &str) -> (name: String)
    ensures
        name@ == temp_name(slot@),
{
    let n = slot.unicode_len();
    let dot = n >= 1 && slot.get_char(n - 1) == '.' && (n == 1 || slot.get_char(n - 2) == '/');
    let bare = n == 0 || slot.get_char(n - 1) == '/';
    let mut name = slot.to_owned();
    if dot {
        let suffix = ".";
        proof {
            reveal_strlit(".");
            assert(suffix@ =~= seq!['.']);
        }
        name.append(suffix);
    } else if bare {
        let suffix = ".fxsave.fxsave.tmp";
        proof {
            reveal_strlit(".fxsave.fxsave.tmp");
            assert(suffix@ =~= slot_suffix() + slot_suffix() + tmp_ext());
            assert(slot@ + suffix@ =~= slot@ + slot_suffix() + slot_suffix() + tmp_ext());
        }
        name.append(suffix);
    } else {
        let suffix = ".fxsave.tmp";
        proof {
            reveal_strlit(".fxsave.tmp");
            assert(suffix@ =~= slot_suffix() + tmp_ext());
            assert(slot@ + suffix@ =~= slot@ + slot_suffix() + tmp_ext());
        }
        name.append(suffix);
    }
    name
}

/// The slot name that a directory entry holds, if it is a slot file.
pub fn slot_name_of_file(file_name: &str) -> (slot: Option<String>)
    ensures
        match slot {
            Some(s) => slot_of_file_name(file_name@) == Some(s@),
            None => slot_of_file_name(file_name@) is None,
        },
{
    let suffix = ".fxsave";
    proof {
        reveal_strlit(".fxsave");
        assert(suffix@ =~= slot_suffix());
    }
    let n = file_name.unicode_len();
    if n <= 7 {
        return None;
    }
    let start = n - 7;
    let mut j: usize = 0;
    while j < 7
        invariant
            n == file_name@.len(),
            start == n - 7,
            n > 7,
            suffix@ == slot_suffix(),
            0 <= j <= 7,
            forall|i: int| 0 <= i < j ==> file_name@[start + i] == slot_suffix()[i],
        decreases 7 - j,
    {
        if file_name.get_char(start + j) != suffix.get_char(j) {
            proof {
                assert(file_name@.subrange(start as int, n as int)[j as int] != slot_suffix()[j as int]);
            }
            return None;
        }
        j = j + 1;
    }
    proof {
        assert(file_name@.subrange(start as int, n as int) =~= slot_suffix());
    }
    Some(file_name.substring_char(0, start).to_owned())
}

/// The save file name of a non-empty slot is a slot file of that very slot.
pub proof fn lemma_slot_file_name_names_slot(slot: Seq<char>)
    requires
        slot.len() > 0,
    ensures
        slot_of_file_name(slot + slot_suffix()) == Some(slot),
{
    let name = slot + slot_suffix();
    let n = name.len();
    assert(name.subrange(n - 7, n as int) =~= slot_suffix());
    assert(name.subrange(0, n - 7) =~= slot);
}

/// A backup file is never taken for a slot file.
pub proof fn lemma_backup_is_not_a_slot(slot: Seq<char>)
    ensures
        slot_of_file_name(slot + backup_suffix()) is None,
{
    let name = slot + backup_suffix();
    let n = name.len();
    assert(name[n - 7] == 'a');
    if n > 7 && name.subrange(n - 7, n as int) == slot_suffix() {
        assert(name.subrange(n - 7, n as int)[0] == name[n - 7]);
    }
}

/// Metadata as [`SaveMetadata::new`] makes it: created when last updated,
/// no play time, description, thumbnail or custom pairs.
pub open spec fn is_fresh(m: MetadataModel) -> bool {
    &&& m.created_at == m.updated_at
    &&& m.play_time_bits == 0
    &&& m.description.len() == 0
    &&& m.thumbnail is None
    &&& m.custom.len() == 0
}

/// The listing entry for slot `name`, given the contents of its file (`None`
/// when the file could not be read). Metadata that cannot be read is shown
/// as fresh metadata stamped with the current time.
pub fn slot_info_from_file(name: String, contents: Option<&[u8]>) -> (info: SlotInfo)
    ensures
        info.name == name,
        match contents {
            Some(bytes) => match peek_outcome(bytes@) {
                PeekOutcome::Found(m) => info.metadata@ == m,
                _ => is_fresh(info.metadata@),
            },
            None => is_fresh(info.metadata@),
        },
{
    let metadata = match contents {
        Some(bytes) => match peek_metadata_bytes(bytes) {
            Ok(m) => m,
            Err(_) => SaveMetadata::new(),
        },
        None => SaveMetadata::new(),
    };
    SlotInfo { name, metadata }
}

/// Whether a slot was last updated at time `t`.
pub open spec fn updated_at(t: i64) -> spec_fn(SlotInfo) -> bool {
    |x: SlotInfo| x.metadata.updated_at == t
}

/// The entries of `s` last updated at time `t`, in their order in `s`.
pub open spec fn updated_at_time(s: Seq<SlotInfo>, t: i64) -> Seq<SlotInfo> {
    s.filter(updated_at(t))
}

/// Newest (largest `updated_at`) first.
pub open spec fn newest_first(s: Seq<SlotInfo>) -> bool {
    forall|i: int, j: int| 0 <= i < j < s.len() ==> s[i].metadata.updated_at >= s[j].metadata.updated_at
}

/// `r` is `s` stably sorted newest first: sorted, and the entries sharing an
/// update time appear in the same order as in `s`.
pub open spec fn stably_sorted_newest_first(r: Seq<SlotInfo>, s: Seq<SlotInfo>) -> bool {
    &&& r.len() == s.len()
    &&& newest_first(r)
    &&& forall|t: i64| #[trigger] updated_at_time(r, t) == updated_at_time(s, t)
}

proof fn lemma_filter_none_match(s: Seq<SlotInfo>, t: i64)
    requires
        forall|i: int| 0 <= i < s.len() ==> s[i].metadata.updated_at != t,
    ensures
        updated_at_time(s, t) == Seq::<SlotInfo>::empty(),
    decreases s.len(),
{
    reveal(Seq::filter);
    if s.len() > 0 {
        lemma_filter_none_match(s.drop_last(), t);
    }
}

proof fn lemma_insert_keeps_time_order(r: Seq<SlotInfo>, done: Seq<SlotInfo>, x: SlotInfo, p: int, t: i64)
    requires
        0 <= p <= r.len(),
        forall|i: int| 0 <= i < p ==> r[i].metadata.updated_at >= x.metadata.updated_at,
        forall|i: int| p <= i < r.len() ==> r[i].metadata.updated_at < x.metadata.updated_at,
        updated_at_time(r, t) == updated_at_time(done, t),
    ensures
        updated_at_time(r.insert(p, x), t) == updated_at_time(done.push(x), t),
{
    let f = updated_at(t);
    let a = r.take(p);
    let b = r.skip(p);
    let one = seq![x];
    assert(r.insert(p, x) =~= a + one + b);
    assert(r =~= a + b);
    Seq::filter_distributes_over_add(a + one, b, f);
    Seq::filter_distributes_over_add(a, one, f);
    Seq::filter_distributes_over_add(a, b, f);
    assert((a + one + b).filter(f) == a.filter(f) + one.filter(f) + b.filter(f));
    assert((a + b).filter(f) == a.filter(f) + b.filter(f));
    done.lemma_filter_push(x, f);
    Seq::<SlotInfo>::empty().lemma_filter_push(x, f);
    assert(one =~= Seq::<SlotInfo>::empty().push(x));
    reveal(Seq::filter);
    assert(Seq::<SlotInfo>::empty().filter(f) =~= Seq::<SlotInfo>::empty());
    if x.metadata.updated_at == t {
        assert(f(x));
        lemma_filter_none_match(b, t);
        assert(b.filter(f) =~= Seq::<SlotInfo>::empty());
        assert(a.filter(f) + b.filter(f) =~= a.filter(f));
        assert(one.filter(f) =~= one);
        assert(a.filter(f) + one + Seq::<SlotInfo>::empty() =~= a.filter(f).push(x));
        assert(done.push(x).filter(f) == done.filter(f).push(x));
    } else {
        assert(!f(x));
        assert(one.filter(f) =~= Seq::<SlotInfo>::empty());
        assert(a.filter(f) + Seq::<SlotInfo>::empty() =~= a.filter(f));
        assert(done.push(x).filter(f) == done.filter(f));
    }
}

proof fn lemma_insert_keeps_stable_order(r: Seq<SlotInfo>, done: Seq<SlotInfo>, x: SlotInfo, p: int)
    requires
        0 <= p <= r.len(),
        forall|i: int| 0 <= i < p ==> r[i].metadata.updated_at >= x.metadata.updated_at,
        forall|i: int| p <= i < r.len() ==> r[i].metadata.updated_at < x.metadata.updated_at,
        forall|t: i64| #[trigger] updated_at_time(r, t) == updated_at_time(done, t),
    ensures
        forall|t: i64| #[trigger] updated_at_time(r.insert(p, x), t) == updated_at_time(done.push(x), t),
{
    assert forall|t: i64| #[trigger] updated_at_time(r.insert(p, x), t) == updated_at_time(done.push(x), t) by {
        assert(updated_at_time(r, t) == updated_at_time(done, t));
        lemma_insert_keeps_time_order(r, done, x, p, t);
    }
}

/// Order slots newest first (largest `updated_at` first); slots updated at
/// the same time keep their relative order.
pub fn sort_slots_newest_first(slots: Vec<SlotInfo>) -> (sorted: Vec<SlotInfo>)
    ensures
        stably_sorted_newest_first(sorted@, slots@),
{
    let ghost s = slots@;
    let mut rest = slots;
    let mut out: Vec<SlotInfo> = Vec::new();
    let ghost mut done: int = 0;
    proof {
        assert(s.take(0) =~= Seq::<SlotInfo>::empty());
        assert(rest@ =~= s.skip(0));
        assert forall|t: i64| #[trigger] updated_at_time(out@, t) == updated_at_time(s.take(0), t) by {
            assert(out@ =~= s.take(0));
        }
    }
    while rest.len() > 0
        invariant
            0 <= done <= s.len(),
            rest@ == s.skip(done),
            out@.len() == done,
            newest_first(out@),
            forall|t: i64| #[trigger] updated_at_time(out@, t) == updated_at_time(s.take(done), t),
        decreases rest.len(),
    {
        let ghost before = rest@;
        let x = rest.remove(0);
        proof {
            assert(x == s[done]);
            assert(rest@ =~= s.skip(done + 1));
            assert(s.take(done + 1) =~= s.take(done).push(x));
        }
        let n = out.len();
        let mut p: usize = 0;
        while p < n && out[p].metadata.updated_at >= x.metadata.updated_at
            invariant
                n == out.len(),
                0 <= p <= n,
                forall|i: int| 0 <= i < p ==> out@[i].metadata.updated_at >= x.metadata.updated_at,
            decreases n - p,
        {
            p = p + 1;
        }
        proof {
            assert forall|i: int| p <= i < n implies out@[i].metadata.updated_at < x.metadata.updated_at by {
                if p < n {
                    assert(out@[p as int].metadata.updated_at < x.metadata.updated_at);
                }
            }
            lemma_insert_keeps_stable_order(out@, s.take(done), x, p as int);
        }
        let ghost old_out = out@;
        out.insert(p, x);
        proof {
            assert(out@ == old_out.insert(p as int, x));
            done = done + 1;
        }
    }
    proof {
        assert(s.take(done) =~= s);
    }
    out
}

/// A file-system step that a slot operation asks for, on file names inside
/// the save directory.
pub enum SlotStep {
    /// Move file `from` to file `to`.
    Rename { from: String, to: String },
    /// Copy file `from` to file `to`.
    Copy { from: String, to: String },
    /// Delete this file.
    Remove(String),
    /// Nothing to do.
    Skip,
}

/// Why a slot operation is refused before touching any file.
pub enum SlotRefusal {
    /// The slot (or backup) named here does not exist.
    Missing(String),
    /// The destination slot `slot`, stored in `file`, already exists.
    Occupied { file: String, slot: String },
}

/// The step that renaming (or, with `copy`, copying) slot `from` to slot `to`
/// takes: refused when `from` does not exist, or else when `to` already
/// exists, since no slot is ever overwritten this way.
pub fn plan_transfer(from: &str, to: &str, copy: bool, from_exists: bool, to_exists: bool)
    -> (res: Result<SlotStep, SlotRefusal>)
    ensures
        !from_exists ==> (res matches Err(SlotRefusal::Missing(s)) && s@ == from@),
        from_exists && to_exists ==> (res matches Err(SlotRefusal::Occupied { file, slot })
            && file@ == to@ + slot_suffix() && slot@ == to@),
        from_exists && !to_exists && copy ==> (res matches Ok(SlotStep::Copy { from: a, to: b })
            && a@ == from@ + slot_suffix() && b@ == to@ + slot_suffix()),
        from_exists && !to_exists && !copy ==> (res matches Ok(SlotStep::Rename { from: a, to: b })
            && a@ == from@ + slot_suffix() && b@ == to@ + slot_suffix()),
{
    if !from_exists {
        return Err(SlotRefusal::Missing(from.to_owned()));
    }
    if to_exists {
        return Err(SlotRefusal::Occupied { file: slot_file_name(to), slot: to.to_owned() });
    }
    let a = slot_file_name(from);
    let b = slot_file_name(to);
    if copy {
        Ok(SlotStep::Copy { from: a, to: b })
    } else {
        Ok(SlotStep::Rename { from: a, to: b })
    }
}

/// The step that restoring the backup of `slot` takes: the backup file
/// replaces the slot file; refused, naming the backup file, when there is
/// no backup.
pub fn plan_restore(slot: &str, backup_exists: bool) -> (res: Result<SlotStep, SlotRefusal>)
    ensures
        !backup_exists ==> (res matches Err(SlotRefusal::Missing(s)) && s@ == slot@ + backup_suffix()),
        backup_exists ==> (res matches Ok(SlotStep::Rename { from: a, to: b })
            && a@ == slot@ + backup_suffix() && b@ == slot@ + slot_suffix()),
{
    if !backup_exists {
        return Err(SlotRefusal::Missing(backup_file_name(slot)));
    }
    Ok(SlotStep::Rename { from: backup_file_name(slot), to: slot_file_name(slot) })
}

/// The step taken before writing `slot`: with backups kept and an existing
/// slot file, that file becomes the backup; otherwise nothing.
pub fn plan_backup(slot: &str, keep_backup: bool, slot_exists: bool) -> (step: SlotStep)
    ensures
        keep_backup && slot_exists ==> (step matches SlotStep::Rename { from: a, to: b }
            && a@ == slot@ + slot_suffix() && b@ == slot@ + backup_suffix()),
        !(keep_backup && slot_exists) ==> step is Skip,
{
    if keep_backup && slot_exists {
        SlotStep::Rename { from: slot_file_name(slot), to: backup_file_name(slot) }
    } else {
        SlotStep::Skip
    }
}

/// Where a new save of `slot` is written and how it takes the slot's place:
/// the bytes go to the temporary file named first, and the step then moves
/// that file onto the slot file in one rename.
pub fn plan_write(slot: &str) -> (res: (String, SlotStep))
    ensures
        res.0@ == temp_name(slot@),
        res.1 matches SlotStep::Rename { from, to } && from@ == temp_name(slot@) && to@ == slot@ + slot_suffix(),
{
    let temp = temp_file_name(slot);
    let commit = SlotStep::Rename { from: temp_file_name(slot), to: slot_file_name(slot) };
    (temp, commit)
}

/// The step that deleting `slot` takes: remove its file if there is one.
pub fn plan_delete(slot: &str, slot_exists: bool) -> (step: SlotStep)
    ensures
        slot_exists ==> (step matches SlotStep::Remove(f) && f@ == slot@ + slot_suffix()),
        !slot_exists ==> step is Skip,
{
    if slot_exists {
        SlotStep::Remove(slot_file_name(slot))
    } else {
        SlotStep::Skip
    }
}

/// The file to read for loading or peeking `slot`; refused when the slot
/// does not exist.
pub fn plan_read(slot: &str, slot_exists: bool) -> (res: Result<String, SlotRefusal>)
    ensures
        slot_exists ==> (res matches Ok(f) && f@ == slot@ + slot_suffix()),
        !slot_exists ==> (res matches Err(SlotRefusal::Missing(s)) && s@ == slot@),
{
    if slot_exists {
        Ok(slot_file_name(slot))
    } else {
        Err(SlotRefusal::Missing(slot.to_owned()))
    }
}

/// The files of a save directory: file name to contents.
pub type DirModel = Map<Seq<char>, Seq<u8>>;

/// `after` holds the same file as `dir` (or none, as `dir`) under `name`.
pub open spec fn same_file(after: DirModel, dir: DirModel, name: Seq<char>) -> bool {
    &&& after.contains_key(name) == dir.contains_key(name)
    &&& dir.contains_key(name) ==> after[name] == dir[name]
}

/// The directory after carrying out `step` on `dir`; a step on a missing
/// source file changes nothing.
pub open spec fn step_effect(dir: DirModel, step: SlotStep) -> DirModel {
    match step {
        SlotStep::Rename { from, to } => if dir.contains_key(from@) {
            dir.remove(from@).insert(to@, dir[from@])
        } else {
            dir
        },
        SlotStep::Copy { from, to } => if dir.contains_key(from@) {
            dir.insert(to@, dir[from@])
        } else {
            dir
        },
        SlotStep::Remove(f) => dir.remove(f@),
        SlotStep::Skip => dir,
    }
}

proof fn lemma_suffixed_names_differ(slot: Seq<char>)
    ensures
        slot + slot_suffix() != slot + backup_suffix(),
{
    assert((slot + slot_suffix()).len() != (slot + backup_suffix()).len());
}

proof fn lemma_temp_name_differs(slot: Seq<char>)
    ensures
        temp_name(slot) != slot + slot_suffix(),
        temp_name(slot) != slot + backup_suffix(),
{
    let t = temp_name(slot);
    let bak = slot + backup_suffix();
    assert(t.len() != (slot + slot_suffix()).len());
    if !dot_slot(slot) && !bare_slot(slot) && t == bak {
        let i: int = slot.len() + 10int;
        assert(t[i] == tmp_ext()[3]);
        assert(bak[i] == backup_suffix()[10]);
    }
}

/// Saving `new` into `slot` of `dir`: the step that [`plan_backup`] gives,
/// then writing `new` to the temporary file and the rename that
/// [`plan_write`] gives. Afterwards the slot file holds `new` and no
/// temporary file is left; with backups kept and an earlier slot file, the
/// backup holds that earlier file, otherwise the backup is untouched; no
/// other file changes.
pub proof fn lemma_save_effect(
    dir: DirModel,
    slot: Seq<char>,
    keep_backup: bool,
    step: SlotStep,
    commit: SlotStep,
    new: Seq<u8>,
)
    requires
        keep_backup && dir.contains_key(slot + slot_suffix()) ==> (step matches SlotStep::Rename { from: a, to: b }
            && a@ == slot + slot_suffix() && b@ == slot + backup_suffix()),
        !(keep_backup && dir.contains_key(slot + slot_suffix())) ==> step is Skip,
        commit matches SlotStep::Rename { from: a, to: b } && a@ == temp_name(slot) && b@ == slot + slot_suffix(),
    ensures
        ({
            let file = slot + slot_suffix();
            let bak = slot + backup_suffix();
            let temp = temp_name(slot);
            let after = step_effect(step_effect(dir, step).insert(temp, new), commit);
            &&& after.contains_key(file) && after[file] == new
            &&& !after.contains_key(temp)
            &&& keep_backup && dir.contains_key(file) ==> after.contains_key(bak) && after[bak] == dir[file]
            &&& !(keep_backup && dir.contains_key(file)) ==> same_file(after, dir, bak)
            &&& forall|n: Seq<char>| n != file && n != bak && n != temp ==> #[trigger] same_file(after, dir, n)
        }),
{
    lemma_suffixed_names_differ(slot);
    lemma_temp_name_differs(slot);
    let file = slot + slot_suffix();
    let temp = temp_name(slot);
    let written = step_effect(dir, step).insert(temp, new);
    assert(written.contains_key(temp) && written[temp] == new);
    assert(step_effect(written, commit) == written.remove(temp).insert(file, new));
}

/// Deleting `slot` of `dir` with the step that [`plan_delete`] gives leaves
/// no slot file and changes no other file; deleting again changes nothing.
pub proof fn lemma_delete_effect(dir: DirModel, slot: Seq<char>, step: SlotStep, again: SlotStep)
    requires
        dir.contains_key(slot + slot_suffix()) ==> (step matches SlotStep::Remove(f) && f@ == slot + slot_suffix()),
        !dir.contains_key(slot + slot_suffix()) ==> step is Skip,
        again is Skip,
    ensures
        ({
            let file = slot + slot_suffix();
            let after = step_effect(dir, step);
            &&& !after.contains_key(file)
            &&& forall|n: Seq<char>| n != file ==> #[trigger] same_file(after, dir, n)
            &&& step_effect(after, again) == after
        }),
{
    let file = slot + slot_suffix();
    if !dir.contains_key(file) {
        assert(step_effect(dir, step) == dir);
    }
}

/// Renaming (or copying) slot `from` to slot `to` with the step that
/// [`plan_transfer`] gives: `to` then holds what `from` held, `from` is gone
/// after a rename and kept after a copy, and no other file changes.
pub proof fn lemma_transfer_effect(dir: DirModel, from: Seq<char>, to: Seq<char>, copy: bool, step: SlotStep)
    requires
        from != to,
        dir.contains_key(from + slot_suffix()),
        !dir.contains_key(to + slot_suffix()),
        copy ==> (step matches SlotStep::Copy { from: a, to: b }
            && a@ == from + slot_suffix() && b@ == to + slot_suffix()),
        !copy ==> (step matches SlotStep::Rename { from: a, to: b }
            && a@ == from + slot_suffix() && b@ == to + slot_suffix()),
    ensures
        ({
            let src = from + slot_suffix();
            let dst = to + slot_suffix();
            let after = step_effect(dir, step);
            &&& after.contains_key(dst) && after[dst] == dir[src]
            &&& copy ==> same_file(after, dir, src)
            &&& !copy ==> !after.contains_key(src)
            &&& forall|n: Seq<char>| n != src && n != dst ==> #[trigger] same_file(after, dir, n)
        }),
{
    let src = from + slot_suffix();
    let dst = to + slot_suffix();
    assert(src != dst) by {
        if src == dst {
            assert(src.subrange(0, from.len() as int) =~= from);
            assert(dst.subrange(0, to.len() as int) =~= to);
            assert(from.len() == to.len());
        }
    }
}

} // verus!
