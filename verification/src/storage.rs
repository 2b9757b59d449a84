//! Where the notes are, which there are, in which order, and what their files are called.
//!
//! Each note is a plain text file `note-<N>.txt`. The order of the notes and a counter for new
//! ids stand in `index.json`. A file is written under a temporary name first and then renamed.
use vstd::prelude::*;

use crate::decimal;

verus! {

// ── Where the notes are ──────────────────────────────────────────────────────

/// Path `rest` below directory `base`. An empty `base` is the current directory.
pub open spec fn below(base: Seq<char>, rest: Seq<char>) -> Seq<char> {
    if base.len() == 0 || base.last() == '/' {
        base + rest
    } else {
        base + "/"@ + rest
    }
}

/// The data directory: the one that was chosen, or else the usual place below the home directory.
/// `None` where neither is known.
pub fn data_directory(chosen: Option<String>, home: Option<String>) -> (r: Option<String>)
    ensures
        r is Some <==> chosen is Some || home is Some,
        chosen matches Some(c) ==> r matches Some(d) && d@ == c@,
        chosen is None ==> (home matches Some(h) ==> r matches Some(d) && d@ == below(
            h@,
            "Library/Application Support/todizzy"@,
        )),
{
    if chosen.is_some() {
        return chosen;
    }
    match home {
        Some(h) => {
            let mut dir = h;
            let n: usize = dir.as_str().unicode_len();
            if n > 0 && dir.as_str().get_char(n - 1) != '/' {
                dir.append("/");
            }
            dir.append("Library/Application Support/todizzy");
            Some(dir)
        },
        None => None,
    }
}

// ── Note id ──────────────────────────────────────────────────────────────────

/// What a note is known by.
#[derive(Debug, Clone, Copy, PartialEq, Eq, PartialOrd, Ord, Structural)]
pub struct NoteId(pub u32);

/// The file name of the note with number `n`.
pub open spec fn note_file(n: nat) -> Seq<char> {
    "note-"@ + decimal::digits_of(n) + ".txt"@
}

/// The name under which the file of the note with number `n` is written.
pub open spec fn note_temp_file(n: nat) -> Seq<char> {
    "note-"@ + decimal::digits_of(n) + ".tmp"@
}

impl NoteId {
    /// Name of the file that holds the note.
    pub fn file_name(self) -> (r: String)
        ensures
            r@ == note_file(self.0 as nat),
    {
        let mut name = "note-".to_owned();
        name.append(decimal::decimal(self.0).as_str());
        name.append(".txt");
        name
    }

    /// Name under which the file is written before it is renamed.
    pub fn temp_file_name(self) -> (r: String)
        ensures
            r@ == note_temp_file(self.0 as nat),
    {
        let mut name = "note-".to_owned();
        name.append(decimal::decimal(self.0).as_str());
        name.append(".tmp");
        name
    }
}

/// Different notes have different files.
pub proof fn note_files_are_distinct(m: nat, n: nat)
    requires
        m != n,
    ensures
        note_file(m) != note_file(n),
        note_temp_file(m) != note_temp_file(n),
{
    decimal::digits_stand_for_their_number(m);
    decimal::digits_stand_for_their_number(n);
    lemma_middle_differs("note-"@, decimal::digits_of(m), decimal::digits_of(n), ".txt"@);
    lemma_middle_differs("note-"@, decimal::digits_of(m), decimal::digits_of(n), ".tmp"@);
}

/// Texts that differ still differ between the same two texts.
proof fn lemma_middle_differs(a: Seq<char>, x: Seq<char>, y: Seq<char>, z: Seq<char>)
    requires
        x != y,
    ensures
        a + x + z != a + y + z,
{
    let l = a + x + z;
    let r = a + y + z;
    if l == r {
        assert(l.len() == r.len());
        assert(x =~= l.subrange(a.len() as int, (a.len() + x.len()) as int));
        assert(y =~= r.subrange(a.len() as int, (a.len() + y.len()) as int));
    }
}

// ── Index ────────────────────────────────────────────────────────────────────

/// The notes in the order of their pages, and the number that the next new note gets.
#[derive(Debug)]
pub struct Index {
    /// Ordered list of note ids (order = page order shown to the user).
    pub notes: Vec<NoteId>,
    /// Monotonically increasing counter for generating new ids.
    pub next_id: u32,
}

/// The index as a sequence and a number.
#[verifier::ext_equal]
pub struct IndexState {
    pub notes: Seq<NoteId>,
    pub next_id: int,
}

impl View for Index {
    type V = IndexState;

    open spec fn view(&self) -> IndexState {
        IndexState { notes: self.notes@, next_id: self.next_id as int }
    }
}

impl IndexState {
    /// Every note came from the counter, and none occurs twice.
    pub open spec fn counted(self) -> bool {
        &&& forall|i: int| 0 <= i < self.notes.len() ==> (#[trigger] self.notes[i]).0 < self.next_id
        &&& forall|i: int, j: int|
            0 <= i < j < self.notes.len() ==> #[trigger] self.notes[i] != #[trigger] self.notes[j]
    }

    /// A new note at the end.
    pub open spec fn create(self) -> IndexState {
        IndexState {
            notes: self.notes.push(NoteId(self.next_id as u32)),
            next_id: self.next_id + 1,
        }
    }

    /// The note at `i` gone. The last note that is left stays.
    pub open spec fn delete(self, i: int) -> IndexState {
        if self.notes.len() <= 1 {
            self
        } else {
            IndexState { notes: self.notes.remove(i), next_id: self.next_id }
        }
    }

    /// There is a note.
    pub open spec fn opened(self) -> IndexState {
        if self.notes.len() == 0 {
            self.create()
        } else {
            self
        }
    }
}

impl Default for Index {
    fn default() -> (r: Self)
        ensures
            r@ == (IndexState { notes: seq![NoteId(0)], next_id: 1 }),
            r@.counted(),
    {
        let mut notes: Vec<NoteId> = Vec::new();
        notes.push(NoteId(0));
        let r = Index { notes, next_id: 1 };
        assert(r@.notes =~= seq![NoteId(0)]);
        r
    }
}

/// A new note gets an id that no note had, and leaves the other notes where they are.
pub proof fn new_note_is_new(s: IndexState)
    requires
        s.counted(),
        0 <= s.next_id < u32::MAX,
    ensures
        s.create().counted(),
        !s.notes.contains(s.create().notes.last()),
        s.create().notes.drop_last() == s.notes,
{
    let n = NoteId(s.next_id as u32);
    assert(s.create().notes.drop_last() =~= s.notes);
    if s.notes.contains(n) {
        let i = choose|i: int| 0 <= i < s.notes.len() && s.notes[i] == n;
        assert(s.notes[i].0 < s.next_id);
    }
}

/// Deleting a note keeps the ids apart, and never leaves an empty list.
pub proof fn deleting_keeps_a_note(s: IndexState, i: int)
    requires
        s.notes.len() > 0,
        s.notes.len() > 1 ==> 0 <= i < s.notes.len(),
    ensures
        s.delete(i).notes.len() > 0,
        s.counted() ==> s.delete(i).counted(),
        s.counted() && s.notes.len() > 1 ==> !s.delete(i).notes.contains(s.notes[i]),
        s.delete(i).next_id == s.next_id,
{
    if s.notes.len() > 1 {
        let d = s.delete(i);
        if s.counted() {
            assert forall|k: int| 0 <= k < d.notes.len() implies (#[trigger] d.notes[k]).0
                < d.next_id by {
                assert(d.notes[k] == s.notes[if k < i { k } else { k + 1 }]);
            }
            assert forall|j: int, k: int| 0 <= j < k < d.notes.len() implies #[trigger] d.notes[j]
                != #[trigger] d.notes[k] by {
                assert(d.notes[j] == s.notes[if j < i { j } else { j + 1 }]);
                assert(d.notes[k] == s.notes[if k < i { k } else { k + 1 }]);
            }
            if d.notes.contains(s.notes[i]) {
                let k = choose|k: int| 0 <= k < d.notes.len() && d.notes[k] == s.notes[i];
                assert(d.notes[k] == s.notes[if k < i { k } else { k + 1 }]);
            }
        }
    }
}

/// The id of a deleted note is not given to the note that is created next.
pub proof fn ids_are_not_reused(s: IndexState, i: int)
    requires
        s.counted(),
        s.notes.len() > 1,
        0 <= i < s.notes.len(),
        0 <= s.next_id < u32::MAX,
    ensures
        s.delete(i).create().notes.last() != s.notes[i],
{
    assert(s.notes[i].0 < s.next_id);
}

// ── NoteStore ────────────────────────────────────────────────────────────────

/// The notes that there are.
#[derive(Debug)]
pub struct NoteStore {
    index: Index,
}

impl View for NoteStore {
    type V = IndexState;

    closed spec fn view(&self) -> IndexState {
        self.index@
    }
}

impl NoteStore {
    /// Open the store that `index` describes. Where it has no note, one is created; it is handed
    /// out too, for its empty file to be written.
    pub fn open(index: Index) -> (r: (Self, Option<NoteId>))
        requires
            index@.notes.len() == 0 ==> index@.next_id < u32::MAX,
        ensures
            r.0@ == index@.opened(),
            r.0@.notes.len() > 0,
            r.1 == (if index@.notes.len() == 0 { Some(r.0@.notes[0]) } else { None }),
    {
        let mut store = NoteStore { index };
        if store.index.notes.len() == 0 {
            let id = store.create_note();
            (store, Some(id))
        } else {
            (store, None)
        }
    }

    /// Name of the file that holds the index.
    pub fn index_file_name() -> (r: String)
        ensures
            r@ == "index.json"@,
    {
        "index.json".to_owned()
    }

    /// Name under which the index is written before it is renamed.
    pub fn index_temp_file_name() -> (r: String)
        ensures
            r@ == "index.tmp"@,
    {
        "index.tmp".to_owned()
    }

    // ── Queries ──────────────────────────────────────────────────────────────

    pub fn note_ids(&self) -> (r: &[NoteId])
        ensures
            r@ == self@.notes,
    {
        self.index.notes.as_slice()
    }

    pub fn len(&self) -> (r: usize)
        ensures
            r == self@.notes.len(),
    {
        self.index.notes.len()
    }

    pub fn id_at(&self, index: usize) -> (r: NoteId)
        requires
            index < self@.notes.len(),
        ensures
            r == self@.notes[index as int],
    {
        self.index.notes[index]
    }

    /// The number that the next new note gets.
    pub fn next_id(&self) -> (r: u32)
        ensures
            r == self@.next_id,
    {
        self.index.next_id
    }

    // ── Mutations ────────────────────────────────────────────────────────────

    /// Create a new empty note at the end of the list. Returns its id.
    pub fn create_note(&mut self) -> (r: NoteId)
        requires
            old(self)@.next_id < u32::MAX,
        ensures
            final(self)@ == old(self)@.create(),
            r == final(self)@.notes.last(),
            r.0 == old(self)@.next_id,
    {
        let id = NoteId(self.index.next_id);
        self.index.next_id = self.index.next_id + 1;
        self.index.notes.push(id);
        id
    }

    /// Delete the note at `idx`. Keeps at least one note alive. Returns the note that is gone, for
    /// its file to be removed.
    pub fn delete_note(&mut self, idx: usize) -> (r: Option<NoteId>)
        requires
            old(self)@.notes.len() <= 1 || idx < old(self)@.notes.len(),
        ensures
            final(self)@ == old(self)@.delete(idx as int),
            r == (if old(self)@.notes.len() <= 1 {
                None
            } else {
                Some(old(self)@.notes[idx as int])
            }),
    {
        if self.index.notes.len() <= 1 {
            return None;
        }
        Some(self.index.notes.remove(idx))
    }
}

// ── What creating, deleting and opening do ───────────────────────────────────

/// A new note gets the number of the counter, which goes up by one, and stands behind all others.
pub proof fn creating_appends_the_next_number(s: IndexState, i: int)
    requires
        0 <= s.next_id < u32::MAX,
    ensures
        s.create().notes.len() == s.notes.len() + 1,
        s.create().notes.last().0 == s.next_id,
        0 <= i < s.notes.len() ==> s.create().notes[i] == s.notes[i],
        s.create().next_id == s.next_id + 1,
{
}

/// Deleting takes out the note at its place and leaves the others in their order; the last note
/// that is left stays.
pub proof fn deleting_takes_out_that_note(s: IndexState, i: int, k: int)
    requires
        0 <= i < s.notes.len(),
    ensures
        s.notes.len() == 1 ==> s.delete(i) == s,
        s.notes.len() > 1 ==> s.delete(i).notes.len() == s.notes.len() - 1,
        s.notes.len() > 1 && 0 <= k < i ==> s.delete(i).notes[k] == s.notes[k],
        i <= k < s.notes.len() - 1 ==> s.delete(i).notes[k] == s.notes[k + 1],
        s.delete(i).next_id == s.next_id,
{
}

/// Opening changes nothing where there is a note, and else creates one with the number of the
/// counter.
pub proof fn opening_makes_sure_of_a_note(s: IndexState)
    requires
        0 <= s.next_id < u32::MAX,
    ensures
        s.notes.len() > 0 ==> s.opened() == s,
        s.notes.len() == 0 ==> s.opened().notes.len() == 1 && s.opened().notes[0].0 == s.next_id
            && s.opened().next_id == s.next_id + 1,
        s.opened().notes.len() > 0,
{
}

/// The file of a note is called after its number in decimal digits, without a zero in front; the
/// file that is written first differs from it only in its ending.
pub proof fn note_files_are_called_after_their_number(n: nat)
    ensures
        ({
            let d = decimal::digits_of(n);
            &&& note_file(n) == "note-"@ + d + ".txt"@
            &&& note_temp_file(n) == "note-"@ + d + ".tmp"@
            &&& decimal::digits_value(d) == n
            &&& d.len() > 0
            &&& forall|i: int| 0 <= i < d.len() ==> decimal::digit(#[trigger] d[i])
            &&& n > 0 ==> d[0] != '0'
        }),
{
    decimal::digits_stand_for_their_number(n);
    decimal::numbers_are_written_in_digits(n);
}

/// A path below a directory is the directory, one slash and the path; a directory that ends in a
/// slash gets no other one, and the current directory none.
pub proof fn paths_are_joined_by_one_slash(base: Seq<char>, rest: Seq<char>)
    ensures
        base.len() == 0 ==> below(base, rest) == rest,
        base.len() > 0 && base.last() == '/' ==> below(base, rest) == base + rest,
        base.len() > 0 && base.last() != '/' ==> below(base, rest) == base + seq!['/'] + rest,
{
    reveal_strlit("/");
    assert("/"@ =~= seq!['/']);
    if base.len() == 0 {
        assert(base + rest =~= rest);
    }
}

} // verus!
