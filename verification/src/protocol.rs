//! The viewer's board data: items, columns, render styles and the neutral,
//! producer-asserted status, with the wire and display words for each.
use vstd::prelude::*;

use crate::display::unix_now;
use crate::text::{str_eq, to_owned};

verus! {

/// Neutral, domain-agnostic status the producer asserts (the tool never
/// computes it). `n/a` is no status at all.
#[derive(Debug, Clone, Copy, PartialEq, Eq, Structural)]
pub enum Status {
    /// Passed (wire word `ok`).
    Okay,
    /// Failed; the wire word is `ko` (`fail` still parses).
    Fail,
    Pending,
    /// Failed but accepted by the user — pair with a justification.
    Justified,
}

/// How a board renders its items.
#[derive(Debug, Clone, Copy, PartialEq, Eq, Structural)]
pub enum BoardStyle {
    /// Flat text lines under each header.
    List,
    /// Each item a small box, columns as layers.
    Cards,
    /// Registry panel: category sidebar + filtered list + fine filter.
    Panel,
    /// A grid: one row per item.
    Sheet,
}

impl Default for BoardStyle {
    fn default() -> (r: Self)
        ensures
            r == BoardStyle::List,
    {
        BoardStyle::List
    }
}

/// How a panel lays out its children.
#[derive(Debug, Clone, Copy, PartialEq, Eq, Structural)]
pub enum LayoutKind {
    Vertical,
    Horizontal,
}

/// One board item. `serves` lists the titles one layer up that this item
/// realizes; `status` is the producer's verdict.
#[derive(Debug, Clone)]
pub struct Item {
    pub text: String,
    pub serves: Vec<String>,
    pub status: Option<Status>,
    /// The how/what description, one line each.
    pub note: Vec<String>,
    /// Attachment references (paths / URLs).
    pub attachments: Vec<String>,
    /// Realization locators `file#unit`.
    pub at: Vec<String>,
    pub category: Option<String>,
    /// Producer-supplied stable reference, e.g. `tsts_sco_001`.
    pub id: Option<String>,
    /// A remark on the result.
    pub comment: Option<String>,
    /// Parentless by design (a derived requirement).
    pub derived: bool,
    /// The commit this item was verified against.
    pub sha: Option<String>,
    /// Last-modified, Unix seconds.
    pub modified: Option<u64>,
}

/// An item as pure data.
pub struct ItemModel {
    pub text: Seq<char>,
    pub serves: Seq<Seq<char>>,
    pub status: Option<Status>,
    pub note: Seq<Seq<char>>,
    pub attachments: Seq<Seq<char>>,
    pub at: Seq<Seq<char>>,
    pub category: Option<Seq<char>>,
    pub id: Option<Seq<char>>,
    pub comment: Option<Seq<char>>,
    pub derived: bool,
    pub sha: Option<Seq<char>>,
    pub modified: Option<u64>,
}

pub open spec fn svec(v: Seq<String>) -> Seq<Seq<char>> {
    v.map_values(|s: String| s@)
}

pub open spec fn sopt(o: Option<String>) -> Option<Seq<char>> {
    match o {
        Some(s) => Some(s@),
        None => None,
    }
}

impl View for Item {
    type V = ItemModel;

    open spec fn view(&self) -> ItemModel {
        ItemModel {
            text: self.text@,
            serves: svec(self.serves@),
            status: self.status,
            note: svec(self.note@),
            attachments: svec(self.attachments@),
            at: svec(self.at@),
            category: sopt(self.category),
            id: sopt(self.id),
            comment: sopt(self.comment),
            derived: self.derived,
            sha: sopt(self.sha),
            modified: self.modified,
        }
    }
}

/// An item with only its text.
pub open spec fn plain_item(text: Seq<char>) -> ItemModel {
    ItemModel {
        text,
        serves: Seq::empty(),
        status: None,
        note: Seq::empty(),
        attachments: Seq::empty(),
        at: Seq::empty(),
        category: None,
        id: None,
        comment: None,
        derived: false,
        sha: None,
        modified: None,
    }
}

impl Default for Item {
    fn default() -> (r: Self)
        ensures
            r@ == plain_item(Seq::empty()),
    {
        proof {
            reveal_strlit("");
            assert(""@ =~= Seq::<char>::empty());
        }
        Item::new("")
    }
}

impl Item {
    /// An item with `text` and nothing else.
    pub fn new(text: &str) -> (r: Item)
        ensures
            r@ == plain_item(text@),
    {
        let r = Item {
            text: to_owned(text),
            serves: Vec::new(),
            status: None,
            note: Vec::new(),
            attachments: Vec::new(),
            at: Vec::new(),
            category: None,
            id: None,
            comment: None,
            derived: false,
            sha: None,
            modified: None,
        };
        assert(r@.serves =~= Seq::<Seq<char>>::empty());
        assert(r@.note =~= Seq::<Seq<char>>::empty());
        assert(r@.attachments =~= Seq::<Seq<char>>::empty());
        assert(r@.at =~= Seq::<Seq<char>>::empty());
        r
    }

    /// The item carries nothing but its text (it goes on the wire as a bare string).
    pub fn is_plain(&self) -> (r: bool)
        ensures
            r == (self@ == plain_item(self@.text)),
    {
        let r = self.serves.len() == 0 && self.status.is_none() && self.note.len() == 0
            && self.attachments.len() == 0 && self.at.len() == 0 && self.category.is_none()
            && self.id.is_none() && self.comment.is_none() && !self.derived && self.sha.is_none()
            && self.modified.is_none();
        proof {
            if self@ == plain_item(self@.text) {
                assert(self@.serves.len() == 0);
                assert(self@.note.len() == 0);
                assert(self@.attachments.len() == 0);
                assert(self@.at.len() == 0);
            }
            if r {
                assert(self@.serves =~= Seq::<Seq<char>>::empty());
                assert(self@.note =~= Seq::<Seq<char>>::empty());
                assert(self@.attachments =~= Seq::<Seq<char>>::empty());
                assert(self@.at =~= Seq::<Seq<char>>::empty());
            }
        }
        r
    }

    /// Stamp the modified time with the wall clock (Unix seconds); nothing else
    /// changes.
    pub fn touch(&mut self)
        ensures
            final(self)@ == (ItemModel { modified: final(self)@.modified, ..old(self)@ }),
    {
        self.modified = unix_now();
    }
}

/// One column (lane) of a board: a header, an optional stable key, its items.
#[derive(Debug, Clone)]
pub struct BoardColumn {
    pub header: String,
    pub key: Option<String>,
    pub items: Vec<Item>,
}

impl Default for BoardColumn {
    fn default() -> (r: Self)
        ensures
            r.header@ == Seq::<char>::empty(),
            r.key is None,
            r.items@.len() == 0,
    {
        BoardColumn { header: String::new(), key: None, items: Vec::new() }
    }
}

// ─── words ──────────────────────────────────────────────────────────────────

/// The wire word of a status.
pub open spec fn spec_status_word(s: Status) -> Seq<char> {
    match s {
        Status::Okay => "ok"@,
        Status::Fail => "ko"@,
        Status::Pending => "pending"@,
        Status::Justified => "justified"@,
    }
}

/// The wire word of a status.
pub fn status_word(s: Status) -> (r: &'static str)
    ensures
        r@ == spec_status_word(s),
{
    match s {
        Status::Okay => "ok",
        Status::Fail => "ko",
        Status::Pending => "pending",
        Status::Justified => "justified",
    }
}

/// The wire word of an optional status: `n/a` for none.
pub fn st_word(s: Option<Status>) -> (r: &'static str)
    ensures
        r@ == match s {
            Some(x) => spec_status_word(x),
            None => "n/a"@,
        },
{
    match s {
        Some(x) => status_word(x),
        None => "n/a",
    }
}

/// The UI label of a status (not the wire word).
pub fn status_label(st: Option<Status>) -> (r: &'static str)
    ensures
        r@ == match st {
            Some(Status::Okay) => "OK"@,
            Some(Status::Fail) => "KO"@,
            Some(Status::Pending) => "Pending"@,
            Some(Status::Justified) => "Justified"@,
            None => "—"@,
        },
{
    match st {
        Some(Status::Okay) => "OK",
        Some(Status::Fail) => "KO",
        Some(Status::Pending) => "Pending",
        Some(Status::Justified) => "Justified",
        None => "—",
    }
}

/// Why a status word was refused.
#[derive(Debug, Clone, Copy, PartialEq, Eq, Structural)]
pub enum StatusWordError {
    /// No word at all (an empty value is a mistake, not a clear).
    Empty,
    /// A word that names no status.
    Unknown,
}

/// The status a word names: `ok`, `ko`/`fail`, `pending`, `justified`; `na`
/// and `clear` name no status.
pub open spec fn spec_parse_status(s: Seq<char>) -> Result<Option<Status>, StatusWordError> {
    if s == "ok"@ {
        Ok(Some(Status::Okay))
    } else if s == "ko"@ || s == "fail"@ {
        Ok(Some(Status::Fail))
    } else if s == "pending"@ {
        Ok(Some(Status::Pending))
    } else if s == "justified"@ {
        Ok(Some(Status::Justified))
    } else if s == "na"@ || s == "clear"@ {
        Ok(None)
    } else if s.len() == 0 {
        Err(StatusWordError::Empty)
    } else {
        Err(StatusWordError::Unknown)
    }
}

/// Parse a status word; `na` / `clear` clear it, an empty or unknown word is refused.
pub fn parse_status(s: &str) -> (r: Result<Option<Status>, StatusWordError>)
    ensures
        r == spec_parse_status(s@),
{
    proof {
        reveal_strlit("ok");
        reveal_strlit("ko");
        reveal_strlit("fail");
        reveal_strlit("pending");
        reveal_strlit("justified");
        reveal_strlit("na");
        reveal_strlit("clear");
    }
    if str_eq(s, "ok") {
        Ok(Some(Status::Okay))
    } else if str_eq(s, "ko") || str_eq(s, "fail") {
        Ok(Some(Status::Fail))
    } else if str_eq(s, "pending") {
        Ok(Some(Status::Pending))
    } else if str_eq(s, "justified") {
        Ok(Some(Status::Justified))
    } else if str_eq(s, "na") || str_eq(s, "clear") {
        Ok(None)
    } else if s.is_empty() {
        Err(StatusWordError::Empty)
    } else {
        Err(StatusWordError::Unknown)
    }
}

/// The word of a board style.
pub open spec fn spec_style_word(s: BoardStyle) -> Seq<char> {
    match s {
        BoardStyle::Cards => "cards"@,
        BoardStyle::Panel => "panel"@,
        BoardStyle::Sheet => "sheet"@,
        BoardStyle::List => "list"@,
    }
}

/// The word of a board style.
pub fn style_word(s: BoardStyle) -> (r: &'static str)
    ensures
        r@ == spec_style_word(s),
{
    match s {
        BoardStyle::Cards => "cards",
        BoardStyle::Panel => "panel",
        BoardStyle::Sheet => "sheet",
        BoardStyle::List => "list",
    }
}

/// The style a word names (`list` or nothing is the list style); none for any
/// other word.
pub open spec fn spec_parse_style(s: Seq<char>) -> Option<BoardStyle> {
    if s == "cards"@ {
        Some(BoardStyle::Cards)
    } else if s == "panel"@ {
        Some(BoardStyle::Panel)
    } else if s == "sheet"@ {
        Some(BoardStyle::Sheet)
    } else if s == "list"@ || s.len() == 0 {
        Some(BoardStyle::List)
    } else {
        None
    }
}

/// Parse a style word: list|cards|panel|sheet (empty means list).
pub fn parse_style(s: &str) -> (r: Option<BoardStyle>)
    ensures
        r == spec_parse_style(s@),
{
    proof {
        reveal_strlit("cards");
        reveal_strlit("panel");
        reveal_strlit("sheet");
        reveal_strlit("list");
    }
    if str_eq(s, "cards") {
        Some(BoardStyle::Cards)
    } else if str_eq(s, "panel") {
        Some(BoardStyle::Panel)
    } else if str_eq(s, "sheet") {
        Some(BoardStyle::Sheet)
    } else if str_eq(s, "list") || s.is_empty() {
        Some(BoardStyle::List)
    } else {
        None
    }
}

/// Parsing a style's word gives the style back.
pub proof fn law_style_word_round_trip(s: BoardStyle)
    ensures
        spec_parse_style(spec_style_word(s)) == Some(s),
{
    reveal_strlit("cards");
    reveal_strlit("panel");
    reveal_strlit("sheet");
    reveal_strlit("list");
    assert("panel"@[0] != "cards"@[0]);
    assert("sheet"@[0] != "cards"@[0] && "sheet"@[0] != "panel"@[0]);
    assert("list"@.len() != "cards"@.len() && "list"@.len() != "panel"@.len() && "list"@.len()
        != "sheet"@.len());
}

/// Parsing a status's wire word gives the status back.
pub proof fn law_status_word_round_trip(s: Status)
    ensures
        spec_parse_status(spec_status_word(s)) == Ok::<Option<Status>, StatusWordError>(Some(s)),
{
    reveal_strlit("ok");
    reveal_strlit("ko");
    reveal_strlit("fail");
    reveal_strlit("pending");
    reveal_strlit("justified");
    reveal_strlit("na");
    reveal_strlit("clear");
    assert("ko"@[0] != "ok"@[0]);
    assert("pending"@.len() != "ok"@.len() && "pending"@.len() != "ko"@.len() && "pending"@.len()
        != "fail"@.len());
    assert("justified"@.len() != "ok"@.len() && "justified"@.len() != "ko"@.len()
        && "justified"@.len() != "fail"@.len() && "justified"@.len() != "pending"@.len());
}

} // verus!
