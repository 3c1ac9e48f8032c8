//! The directory browser: a listing ordered by name, narrowed by a typed
//! search, and clicks on its rows.

use vstd::prelude::*;
use crate::text::chars_of;

verus! {

/// An entry of a directory, by its name.
#[derive(Debug, PartialEq, Eq)]
pub enum File {
    Directory(String),
    File(String),
}

/// An entry as a mathematical value.
pub ghost enum FileView {
    Directory(Seq<char>),
    File(Seq<char>),
}

impl FileView {
    /// The name of the entry.
    pub open spec fn name(self) -> Seq<char> {
        match self {
            FileView::Directory(name) => name,
            FileView::File(name) => name,
        }
    }
}

impl View for File {
    type V = FileView;

    open spec fn view(&self) -> FileView {
        match *self {
            File::Directory(name) => FileView::Directory(name@),
            File::File(name) => FileView::File(name@),
        }
    }
}

impl Clone for File {
    fn clone(&self) -> (r: Self)
        ensures
            r@ == self@,
    {
        match self {
            File::Directory(name) => File::Directory(name.clone()),
            File::File(name) => File::File(name.clone()),
        }
    }
}

impl File {
    /// The name of the entry.
    pub fn name(&self) -> (r: &str)
        ensures
            r@ == self@.name(),
    {
        match self {
            File::Directory(name) => name.as_str(),
            File::File(name) => name.as_str(),
        }
    }

    /// The name of the entry, as it is listed.
    pub fn to_string(&self) -> (r: String)
        ensures
            r@ == self@.name(),
    {
        match self {
            File::Directory(name) => name.clone(),
            File::File(name) => name.clone(),
        }
    }
}

/// The views of a list of entries.
pub open spec fn file_views(files: Seq<File>) -> Seq<FileView> {
    Seq::new(files.len(), |i: int| files[i]@)
}

/// `a` comes before `b` in the order of names: at the first place where
/// they differ `a` has the lesser character, or `a` ends there and `b`
/// goes on.
pub open spec fn name_before(a: Seq<char>, b: Seq<char>) -> bool
    decreases a.len(),
{
    if b.len() == 0 {
        false
    } else if a.len() == 0 {
        true
    } else if a[0] != b[0] {
        a[0] < b[0]
    } else {
        name_before(a.drop_first(), b.drop_first())
    }
}

/// No entry of `files` is followed by one whose name comes before its own.
pub open spec fn ordered_by_name(files: Seq<FileView>) -> bool {
    forall|i: int, j: int|
        0 <= i < j < files.len() ==> !name_before(
            #[trigger] files[j].name(),
            #[trigger] files[i].name(),
        )
}

/// `sorted` with `file` put in behind the last entry whose name does not
/// come after its own.
pub open spec fn inserted_by_name(sorted: Seq<FileView>, file: FileView) -> Seq<FileView>
    decreases sorted.len(),
{
    if sorted.len() == 0 {
        seq![file]
    } else if name_before(file.name(), sorted.last().name()) {
        inserted_by_name(sorted.drop_last(), file).push(sorted.last())
    } else {
        sorted.push(file)
    }
}

/// The entries in the order of their names; entries of one name keep the
/// order in which they were given.
pub open spec fn sorted_by_name(files: Seq<FileView>) -> Seq<FileView>
    decreases files.len(),
{
    if files.len() == 0 {
        Seq::empty()
    } else {
        inserted_by_name(sorted_by_name(files.drop_last()), files.last())
    }
}

/// Of two names that differ, one comes before the other, and never both.
pub proof fn lemma_name_order_total(a: Seq<char>, b: Seq<char>)
    ensures
        !(name_before(a, b) && name_before(b, a)),
        a != b ==> name_before(a, b) || name_before(b, a),
        !name_before(a, a),
    decreases a.len(),
{
    if a.len() > 0 && b.len() > 0 && a[0] == b[0] {
        lemma_name_order_total(a.drop_first(), b.drop_first());
        if a.drop_first() == b.drop_first() {
            assert(a =~= seq![a[0]] + a.drop_first());
            assert(b =~= seq![b[0]] + b.drop_first());
        }
    } else if a.len() == 0 && b.len() == 0 {
        assert(a =~= b);
    }
    if a.len() > 0 {
        lemma_name_order_refl(a);
    }
}

proof fn lemma_name_order_refl(a: Seq<char>)
    ensures
        !name_before(a, a),
    decreases a.len(),
{
    if a.len() > 0 {
        lemma_name_order_refl(a.drop_first());
    }
}

/// The order of names is transitive.
pub proof fn lemma_name_order_transitive(a: Seq<char>, b: Seq<char>, c: Seq<char>)
    requires
        name_before(a, b),
        name_before(b, c),
    ensures
        name_before(a, c),
    decreases a.len(),
{
    if a.len() > 0 && b.len() > 0 && c.len() > 0 && a[0] == b[0] && b[0] == c[0] {
        lemma_name_order_transitive(a.drop_first(), b.drop_first(), c.drop_first());
    }
}

/// Whoever does not come after, and is followed by one that does not come
/// after, does not come after.
pub proof fn lemma_name_order_chain(a: Seq<char>, b: Seq<char>, c: Seq<char>)
    requires
        !name_before(b, a),
        !name_before(c, b),
    ensures
        !name_before(c, a),
{
    lemma_name_order_total(a, b);
    lemma_name_order_total(b, c);
    if name_before(c, a) {
        if a == b {
        } else if b == c {
        } else {
            lemma_name_order_transitive(c, a, b);
        }
    }
}

/// Putting an entry into an ordered list keeps the list ordered, and the
/// list then holds what it held and the entry.
pub proof fn lemma_inserted_by_name(sorted: Seq<FileView>, file: FileView)
    requires
        ordered_by_name(sorted),
    ensures
        ordered_by_name(inserted_by_name(sorted, file)),
        inserted_by_name(sorted, file).to_multiset() == sorted.to_multiset().insert(file),
        inserted_by_name(sorted, file).len() == sorted.len() + 1,
    decreases sorted.len(),
{
    broadcast use vstd::seq_lib::group_to_multiset_ensures;

    let r = inserted_by_name(sorted, file);
    if sorted.len() == 0 {
        assert(r =~= Seq::<FileView>::empty().push(file));
    } else if name_before(file.name(), sorted.last().name()) {
        let front = sorted.drop_last();
        let last = sorted.last();
        assert forall|i: int, j: int| 0 <= i < j < front.len() implies !name_before(
            #[trigger] front[j].name(),
            #[trigger] front[i].name(),
        ) by {
            assert(front[i] == sorted[i] && front[j] == sorted[j]);
        }
        lemma_inserted_by_name(front, file);
        let inner = inserted_by_name(front, file);
        assert(sorted =~= front.push(last));
        lemma_name_order_total(file.name(), last.name());
        assert forall|i: int| 0 <= i < front.len() implies !name_before(
            last.name(),
            #[trigger] front[i].name(),
        ) by {
            assert(front[i] == sorted[i]);
            assert(!name_before(sorted[sorted.len() - 1].name(), sorted[i].name()));
        }
        lemma_inserted_bound(front, file, last);
        assert forall|i: int, j: int| 0 <= i < j < r.len() implies !name_before(
            #[trigger] r[j].name(),
            #[trigger] r[i].name(),
        ) by {
            if j < inner.len() {
                assert(r[i] == inner[i] && r[j] == inner[j]);
            } else {
                assert(r[j] == last);
                assert(r[i] == inner[i]);
            }
        }
    } else {
        assert forall|i: int, j: int| 0 <= i < j < r.len() implies !name_before(
            #[trigger] r[j].name(),
            #[trigger] r[i].name(),
        ) by {
            if j < sorted.len() {
                assert(r[i] == sorted[i] && r[j] == sorted[j]);
            } else {
                assert(r[j] == file);
                assert(r[i] == sorted[i]);
                if i < sorted.len() - 1 {
                    assert(!name_before(sorted[sorted.len() - 1].name(), sorted[i].name()));
                    lemma_name_order_chain(sorted[i].name(), sorted.last().name(), file.name());
                }
            }
        }
    }
}

/// Every entry of the list after an insertion is the new entry or an old
/// one, so a bound on both bounds all.
proof fn lemma_inserted_bound(sorted: Seq<FileView>, file: FileView, bound: FileView)
    requires
        forall|i: int|
            0 <= i < sorted.len() ==> !name_before(bound.name(), #[trigger] sorted[i].name()),
        !name_before(bound.name(), file.name()),
    ensures
        forall|i: int|
            0 <= i < inserted_by_name(sorted, file).len() ==> !name_before(
                bound.name(),
                #[trigger] inserted_by_name(sorted, file)[i].name(),
            ),
    decreases sorted.len(),
{
    let r = inserted_by_name(sorted, file);
    if sorted.len() == 0 {
    } else if name_before(file.name(), sorted.last().name()) {
        let front = sorted.drop_last();
        assert forall|i: int| 0 <= i < front.len() implies !name_before(
            bound.name(),
            #[trigger] front[i].name(),
        ) by {
            assert(front[i] == sorted[i]);
        }
        lemma_inserted_bound(front, file, bound);
        let inner = inserted_by_name(front, file);
        assert forall|i: int| 0 <= i < r.len() implies !name_before(
            bound.name(),
            #[trigger] r[i].name(),
        ) by {
            if i < inner.len() {
                assert(r[i] == inner[i]);
            } else {
                assert(r[i] == sorted[sorted.len() - 1]);
            }
        }
    } else {
        assert forall|i: int| 0 <= i < r.len() implies !name_before(
            bound.name(),
            #[trigger] r[i].name(),
        ) by {
            if i < sorted.len() {
                assert(r[i] == sorted[i]);
            }
        }
    }
}

/// A sorted listing is ordered by name and holds the entries that were
/// given, each as often as it was given.
pub proof fn lemma_sorted_by_name(files: Seq<FileView>)
    ensures
        ordered_by_name(sorted_by_name(files)),
        sorted_by_name(files).to_multiset() == files.to_multiset(),
        sorted_by_name(files).len() == files.len(),
    decreases files.len(),
{
    broadcast use vstd::seq_lib::group_to_multiset_ensures;

    if files.len() == 0 {
    } else {
        lemma_sorted_by_name(files.drop_last());
        lemma_inserted_by_name(sorted_by_name(files.drop_last()), files.last());
        assert(files =~= files.drop_last().push(files.last()));
    }
}

/// Tells whether the name `a` comes before the name `b`.
pub fn comes_before(a: &Vec<char>, b: &Vec<char>) -> (r: bool)
    ensures
        r == name_before(a@, b@),
{
    let mut i: usize = 0;
    proof {
        assert(a@.skip(0) =~= a@);
        assert(b@.skip(0) =~= b@);
    }
    while i < a.len() && i < b.len()
        invariant
            0 <= i <= a.len(),
            i <= b.len(),
            name_before(a@, b@) == name_before(a@.skip(i as int), b@.skip(i as int)),
        decreases a.len() - i,
    {
        if a[i] != b[i] {
            return a[i] < b[i];
        }
        proof {
            assert(a@.skip(i as int).drop_first() =~= a@.skip(i + 1));
            assert(b@.skip(i as int).drop_first() =~= b@.skip(i + 1));
        }
        i = i + 1;
    }
    i < b.len()
}

/// Orders a listing by name.
pub fn sort_by_name(files: &Vec<File>) -> (r: Vec<File>)
    ensures
        file_views(r@) == sorted_by_name(file_views(files@)),
{
    let ghost views = file_views(files@);
    let mut out: Vec<File> = Vec::new();
    let mut i: usize = 0;
    proof {
        assert(views.take(0) =~= Seq::<FileView>::empty());
        assert(file_views(out@) =~= Seq::<FileView>::empty());
    }
    while i < files.len()
        invariant
            views == file_views(files@),
            0 <= i <= files.len(),
            file_views(out@) == sorted_by_name(views.take(i as int)),
        decreases files.len() - i,
    {
        let file = files[i].clone();
        let name = chars_of(file.name());
        let ghost sorted = file_views(out@);
        let mut at: usize = out.len();
        proof {
            assert(views.take(i + 1).drop_last() =~= views.take(i as int));
            assert(views.take(i + 1).last() == file@);
            assert(sorted.take(at as int) =~= sorted);
            assert(sorted.skip(at as int) =~= Seq::<FileView>::empty());
        }
        while at > 0 && comes_before(&name, &chars_of(out[at - 1].name()))
            invariant
                0 <= at <= out.len(),
                sorted == file_views(out@),
                name@ == file@.name(),
                inserted_by_name(sorted, file@) =~= inserted_by_name(sorted.take(at as int), file@)
                    + sorted.skip(at as int),
            decreases at,
        {
            proof {
                let part = sorted.take(at as int);
                assert(part.last() == out@[at - 1]@);
                assert(part.drop_last() =~= sorted.take(at - 1));
                assert(seq![part.last()] + sorted.skip(at as int) =~= sorted.skip(at - 1));
            }
            at = at - 1;
        }
        proof {
            let part = sorted.take(at as int);
            if at > 0 {
                assert(part.last() == out@[at - 1]@);
            }
            assert(inserted_by_name(part, file@) =~= part.push(file@));
        }
        out.insert(at, file);
        proof {
            assert(file_views(out@) =~= sorted.take(at as int).push(file@) + sorted.skip(
                at as int,
            ));
        }
        i = i + 1;
    }
    proof {
        assert(views.take(i as int) =~= views);
    }
    out
}

/// The lower-case form of a text, as `str::to_lowercase` of the standard
/// library gives it.
pub uninterp spec fn lowercase(s: Seq<char>) -> Seq<char>;

/// Puts a text into lower case.
///
/// Wraps `str::to_lowercase`, which is taken on trust: the result depends on
/// the text alone and is what `lowercase` names.
#[verifier::external_body]
fn to_lowercase(s: &str) -> (r: String)
    ensures
        r@ == lowercase(s@),
{
    s.to_lowercase()
}

/// `text` begins with `prefix`.
pub open spec fn is_prefix(prefix: Seq<char>, text: Seq<char>) -> bool {
    prefix.len() <= text.len() && text.take(prefix.len() as int) == prefix
}

/// Tells whether `text` begins with `prefix`.
pub fn starts_with(text: &str, prefix: &str) -> (r: bool)
    ensures
        r == is_prefix(prefix@, text@),
{
    let t = chars_of(text);
    let p = chars_of(prefix);
    if p.len() > t.len() {
        return false;
    }
    let mut i: usize = 0;
    while i < p.len()
        invariant
            t@ == text@,
            p@ == prefix@,
            p.len() <= t.len(),
            0 <= i <= p.len(),
            forall|k: int| 0 <= k < i ==> t@[k] == p@[k],
        decreases p.len() - i,
    {
        if t[i] != p[i] {
            assert(t@.take(p@.len() as int)[i as int] != p@[i as int]);
            return false;
        }
        i = i + 1;
    }
    assert(t@.take(p@.len() as int) =~= p@);
    true
}

/// The entry is listed under `search`: its name begins with the search in
/// any mixture of upper and lower case.
pub open spec fn listed_under(file: FileView, search: Seq<char>) -> bool {
    is_prefix(lowercase(search), lowercase(file.name()))
}

/// The entries that are listed under `search`, in their order.
pub open spec fn narrowed(files: Seq<FileView>, search: Seq<char>) -> Seq<FileView>
    decreases files.len(),
{
    if files.len() == 0 {
        Seq::empty()
    } else if listed_under(files.last(), search) {
        narrowed(files.drop_last(), search).push(files.last())
    } else {
        narrowed(files.drop_last(), search)
    }
}

/// Keeps the entries whose names begin with `search`, whatever their case.
pub fn filter_files(files: &Vec<File>, search: &str) -> (r: Vec<File>)
    ensures
        file_views(r@) == narrowed(file_views(files@), search@),
{
    let ghost views = file_views(files@);
    let wanted = to_lowercase(search);
    let mut out: Vec<File> = Vec::new();
    let mut i: usize = 0;
    proof {
        assert(views.take(0) =~= Seq::<FileView>::empty());
        assert(file_views(out@) =~= Seq::<FileView>::empty());
    }
    while i < files.len()
        invariant
            views == file_views(files@),
            wanted@ == lowercase(search@),
            0 <= i <= files.len(),
            file_views(out@) == narrowed(views.take(i as int), search@),
        decreases files.len() - i,
    {
        proof {
            assert(views.take(i + 1).drop_last() =~= views.take(i as int));
            assert(views.take(i + 1).last() == files@[i as int]@);
        }
        let lowered = to_lowercase(files[i].name());
        if starts_with(lowered.as_str(), wanted.as_str()) {
            let ghost before = file_views(out@);
            let file = files[i].clone();
            out.push(file);
            assert(file_views(out@) =~= before.push(files@[i as int]@));
        }
        i = i + 1;
    }
    proof {
        assert(views.take(i as int) =~= views);
    }
    out
}

/// The listing that is shown for the entries of a directory under a search:
/// ordered by name, and narrowed to the search unless the search is empty.
pub open spec fn listing(entries: Seq<FileView>, search: Seq<char>) -> Seq<FileView> {
    if search.len() == 0 {
        sorted_by_name(entries)
    } else {
        narrowed(sorted_by_name(entries), search)
    }
}

/// A rectangle of the screen, in cells.
#[derive(Debug, Clone, Copy, PartialEq, Eq)]
pub struct Rect {
    pub x: u16,
    pub y: u16,
    pub width: u16,
    pub height: u16,
}

/// The row of a list that a point falls on: its distance below the top of
/// the list's rectangle, where the point lies in the rectangle, both edges
/// counted in.
pub open spec fn row_at(area: Rect, x: u16, y: u16) -> Option<u16> {
    if area.x <= x <= area.x + area.width && area.y <= y <= area.y + area.height {
        Some((y - area.y) as u16)
    } else {
        None
    }
}

/// Finds the row of a list that a point falls on.
pub fn position_in_list(list_location: Rect, position: (u16, u16)) -> (r: Option<u16>)
    ensures
        r == row_at(list_location, position.0, position.1),
{
    let (x, y) = position;
    let x1: u32 = list_location.x as u32;
    let y1: u32 = list_location.y as u32;
    let x2: u32 = x1 + list_location.width as u32;
    let y2: u32 = y1 + list_location.height as u32;
    if x as u32 >= x1 && x as u32 <= x2 && y as u32 >= y1 && y as u32 <= y2 {
        Some(y - list_location.y)
    } else {
        None
    }
}

/// The state of the directory browser.
#[derive(Debug, PartialEq, Eq)]
pub struct Directory {
    /// The typed search.
    pub search: String,
    /// A place for a chosen path; nothing reads it.
    pub path: Option<String>,
    /// The directory whose entries are listed.
    pub current_dir: String,
    /// The entries that are listed.
    pub children: Vec<File>,
    /// Where on the screen the list was drawn last.
    pub location: Option<Rect>,
}

/// The state of the browser as a mathematical value.
pub ghost struct DirectoryView {
    pub search: Seq<char>,
    pub path: Option<Seq<char>>,
    pub current_dir: Seq<char>,
    pub children: Seq<FileView>,
    pub location: Option<Rect>,
}

impl View for Directory {
    type V = DirectoryView;

    open spec fn view(&self) -> DirectoryView {
        DirectoryView {
            search: self.search@,
            path: match self.path {
                Some(p) => Some(p@),
                None => None,
            },
            current_dir: self.current_dir@,
            children: file_views(self.children@),
            location: self.location,
        }
    }
}

/// What a click on the browser asks for.
#[derive(Debug, PartialEq, Eq)]
pub enum Click {
    /// The click fell outside the list, or the list was never drawn.
    Outside,
    /// The first row: take the path of the directory itself.
    InsertCurrent,
    /// The second row: go to the parent directory.
    Parent,
    /// A directory among the entries: go into it.
    Enter(String),
    /// A file among the entries: take its path.
    InsertFile(String),
    /// A row below the last entry.
    Nothing,
}

/// A click as a mathematical value.
pub ghost enum ClickView {
    Outside,
    InsertCurrent,
    Parent,
    Enter(Seq<char>),
    InsertFile(Seq<char>),
    Nothing,
}

impl View for Click {
    type V = ClickView;

    open spec fn view(&self) -> ClickView {
        match *self {
            Click::Outside => ClickView::Outside,
            Click::InsertCurrent => ClickView::InsertCurrent,
            Click::Parent => ClickView::Parent,
            Click::Enter(name) => ClickView::Enter(name@),
            Click::InsertFile(name) => ClickView::InsertFile(name@),
            Click::Nothing => ClickView::Nothing,
        }
    }
}

impl DirectoryView {
    /// What a click at column `x` and line `y` asks for: row 0 of the list
    /// stands for the directory itself, row 1 for its parent, and row
    /// `n + 2` for entry `n`.
    pub open spec fn click(self, x: u16, y: u16) -> ClickView {
        match self.location {
            None => ClickView::Outside,
            Some(area) => match row_at(area, x, y) {
                None => ClickView::Outside,
                Some(row) => if row == 0 {
                    ClickView::InsertCurrent
                } else if row == 1 {
                    ClickView::Parent
                } else if row - 2 < self.children.len() {
                    match self.children[row - 2] {
                        FileView::Directory(name) => ClickView::Enter(name),
                        FileView::File(name) => ClickView::InsertFile(name),
                    }
                } else {
                    ClickView::Nothing
                },
            },
        }
    }

    /// The browser after its directory was listed anew.
    pub open spec fn relisted(self, entries: Seq<FileView>) -> DirectoryView {
        DirectoryView { children: listing(entries, self.search), ..self }
    }

    /// The browser after it went to another directory: the search is
    /// empty, and where the directory could be listed, its entries are
    /// shown.
    pub open spec fn moved_to(
        self,
        path: Seq<char>,
        entries: Option<Seq<FileView>>,
    ) -> DirectoryView {
        DirectoryView {
            search: Seq::empty(),
            current_dir: path,
            children: match entries {
                Some(e) => sorted_by_name(e),
                None => self.children,
            },
            ..self
        }
    }
}

impl Directory {
    /// The browser as it opens on a directory.
    pub fn new(current_dir: String, entries: &Vec<File>) -> (r: Directory)
        ensures
            r@ == (DirectoryView {
                search: Seq::empty(),
                path: None,
                current_dir: current_dir@,
                children: sorted_by_name(file_views(entries@)),
                location: None,
            }),
    {
        Directory {
            search: String::new(),
            path: None,
            current_dir,
            children: sort_by_name(entries),
            location: None,
        }
    }

    /// Tells what a click at `position` asks for.
    pub fn click(&self, position: (u16, u16)) -> (r: Click)
        ensures
            r@ == self@.click(position.0, position.1),
    {
        match self.location {
            None => Click::Outside,
            Some(area) => match position_in_list(area, position) {
                None => Click::Outside,
                Some(row) => if row == 0 {
                    Click::InsertCurrent
                } else if row == 1 {
                    Click::Parent
                } else if ((row - 2) as usize) < self.children.len() {
                    let index: usize = (row - 2) as usize;
                    assert(file_views(self.children@)[index as int]
                        == self.children@[index as int]@);
                    match &self.children[index] {
                        File::Directory(name) => Click::Enter(name.clone()),
                        File::File(name) => Click::InsertFile(name.clone()),
                    }
                } else {
                    Click::Nothing
                },
            },
        }
    }

    /// Shows the entries of the directory, as they were read, under the
    /// search that is typed.
    pub fn set_children(&mut self, entries: &Vec<File>)
        ensures
            final(self)@ == old(self)@.relisted(file_views(entries@)),
    {
        let sorted = sort_by_name(entries);
        if self.search.as_str().is_empty() {
            self.children = sorted;
        } else {
            self.children = filter_files(&sorted, self.search.as_str());
        }
    }

    /// Goes to the directory at `path`, whose entries are `entries` where
    /// they could be read.
    pub fn move_to(&mut self, path: String, entries: Option<&Vec<File>>)
        ensures
            final(self)@ == old(self)@.moved_to(
                path@,
                match entries {
                    Some(e) => Some(file_views(e@)),
                    None => None,
                },
            ),
    {
        self.search = String::new();
        self.current_dir = path;
        match entries {
            Some(e) => {
                self.children = sort_by_name(e);
            },
            None => {},
        }
    }
}

} // verus!
