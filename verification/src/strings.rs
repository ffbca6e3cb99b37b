//! String scanning utilities: a character cursor, scope-aware searching,
//! and index conversion, used to pull annotation arguments out of comment
//! text.  Positions are character indices.
use vstd::prelude::*;

verus! {

/// Whether a pattern value stands at the start of a target string.
pub trait Matcher {
    spec fn spec_is_start(&self, target: Seq<char>) -> bool;

    /// When the pattern matches, it is no longer than the target.
    spec fn spec_size(&self) -> int;

    fn is_start(&self, target: &str) -> (r: bool)
        ensures
            r == self.spec_is_start(target@),
            r ==> self.spec_size() <= target@.len(),
    ;
}

impl Matcher for char {
    open spec fn spec_is_start(&self, target: Seq<char>) -> bool {
        target.len() >= 1 && target[0] == *self
    }

    open spec fn spec_size(&self) -> int {
        1
    }

    fn is_start(&self, target: &str) -> (r: bool) {
        if target.unicode_len() == 0 {
            false
        } else {
            target.get_char(0) == *self
        }
    }
}

impl Matcher for &str {
    open spec fn spec_is_start(&self, target: Seq<char>) -> bool {
        target.len() >= self@.len() && target.subrange(0, self@.len() as int) == self@
    }

    open spec fn spec_size(&self) -> int {
        self@.len() as int
    }

    fn is_start(&self, target: &str) -> (r: bool) {
        crate::value::str_has_prefix(target, self)
    }
}

/// A pattern tried against the rest of the input by a cursor.
pub trait StringCursorPredicate {
    spec fn spec_matches(&self, remaining: Seq<char>) -> bool;

    spec fn spec_len(&self) -> int;

    fn compare(&self, remaining: &str) -> (r: bool)
        ensures
            r == self.spec_matches(remaining@),
            r ==> 0 <= self.spec_len() <= remaining@.len(),
    ;

    fn len(&self) -> (r: usize)
        ensures
            r == self.spec_len(),
    ;
}

impl StringCursorPredicate for char {
    open spec fn spec_matches(&self, remaining: Seq<char>) -> bool {
        remaining.len() >= 1 && remaining[0] == *self
    }

    open spec fn spec_len(&self) -> int {
        1
    }

    fn compare(&self, remaining: &str) -> (r: bool) {
        if remaining.unicode_len() == 0 {
            false
        } else {
            remaining.get_char(0) == *self
        }
    }

    fn len(&self) -> (r: usize) {
        1
    }
}

impl StringCursorPredicate for &str {
    open spec fn spec_matches(&self, remaining: Seq<char>) -> bool {
        remaining.len() >= self@.len() && remaining.subrange(0, self@.len() as int) == self@
    }

    open spec fn spec_len(&self) -> int {
        self@.len() as int
    }

    fn compare(&self, remaining: &str) -> (r: bool) {
        crate::value::str_has_prefix(remaining, self)
    }

    fn len(&self) -> (r: usize) {
        self.unicode_len()
    }
}

/// A character cursor over a borrowed string.
pub struct StringCursor<'a> {
    underlying: &'a str,
    index: usize,
}

impl<'a> StringCursor<'a> {
    /// The characters scanned over.
    pub closed spec fn text(&self) -> Seq<char> {
        self.underlying@
    }

    /// The current position, a character index.
    pub closed spec fn pos(&self) -> int {
        self.index as int
    }

    pub fn new(s: &'a str) -> (r: StringCursor<'a>)
        ensures
            r.text() == s@,
            r.pos() == 0,
    {
        StringCursor { underlying: s, index: 0 }
    }

    /// Advances by `count` positions, unchecked against the end.
    pub fn skip(&mut self, count: usize)
        requires
            old(self).pos() + count <= usize::MAX,
        ensures
            final(self).text() == old(self).text(),
            final(self).pos() == old(self).pos() + count,
    {
        self.index = self.index + count;
    }

    /// Takes the next character as a one-character slice, advancing even
    /// past the end.
    pub fn next(&mut self) -> (r: Option<&'a str>)
        requires
            old(self).pos() < usize::MAX,
        ensures
            final(self).text() == old(self).text(),
            final(self).pos() == old(self).pos() + 1,
            match r {
                Some(c) => old(self).pos() < old(self).text().len() && c@ == seq![
                    old(self).text()[old(self).pos()],
                ],
                None => old(self).pos() >= old(self).text().len(),
            },
    {
        self.index = self.index + 1;
        if self.index <= self.underlying.unicode_len() {
            let r = self.underlying.substring_char(self.index - 1, self.index);
            proof {
                assert(r@ =~= seq![old(self).text()[old(self).pos()]]);
            }
            Some(r)
        } else {
            None
        }
    }

    /// The next character as a one-character slice, without advancing.
    pub fn peak(&self) -> (r: Option<&'a str>)
        requires
            self.pos() < usize::MAX,
        ensures
            match r {
                Some(c) => self.pos() < self.text().len() && c@ == seq![
                    self.text()[self.pos()],
                ],
                None => self.pos() >= self.text().len(),
            },
    {
        if self.index < self.underlying.unicode_len() {
            let r = self.underlying.substring_char(self.index, self.index + 1);
            proof {
                assert(r@ =~= seq![self.text()[self.pos()]]);
            }
            Some(r)
        } else {
            None
        }
    }

    /// Advances over the pattern when it matches the rest of the input.
    pub fn next_if<P: StringCursorPredicate>(&mut self, condition: P) -> (r: bool)
        requires
            old(self).pos() <= old(self).text().len(),
        ensures
            final(self).text() == old(self).text(),
            r == condition.spec_matches(old(self).text().skip(old(self).pos())),
            r ==> final(self).pos() == old(self).pos() + condition.spec_len(),
            !r ==> final(self).pos() == old(self).pos(),
    {
        let n = self.underlying.unicode_len();
        let rem = self.remaining();
        if condition.compare(rem) {
            proof {
                assert(condition.spec_len() <= n - self.index);
            }
            self.index = self.index + condition.len();
            true
        } else {
            false
        }
    }

    /// A new cursor over `text[start..pos]`, the end shortened by one when
    /// `skip_end` is set.
    pub fn new_from_underlying(&self, start: Option<usize>, skip_end: bool) -> (r: StringCursor<
        'a,
    >)
        requires
            self.pos() <= self.text().len(),
            (if skip_end {
                1int
            } else {
                0int
            }) <= self.pos(),
            (match start {
                Some(v) => v as int,
                None => 0int,
            }) <= self.pos() - (if skip_end {
                1int
            } else {
                0int
            }),
        ensures
            r.pos() == 0,
            r.text() == self.text().subrange(
                match start {
                    Some(v) => v as int,
                    None => 0int,
                },
                self.pos() - (if skip_end {
                    1int
                } else {
                    0int
                }),
            ),
    {
        let from = match start {
            Some(v) => v,
            None => 0,
        };
        let to = if skip_end {
            self.index - 1
        } else {
            self.index
        };
        StringCursor { underlying: self.underlying.substring_char(from, to), index: 0 }
    }

    /// The rest of the input, from the current position.
    pub fn remaining(&self) -> (r: &'a str)
        requires
            self.pos() <= self.text().len(),
        ensures
            r@ == self.text().skip(self.pos()),
    {
        let n = self.underlying.unicode_len();
        let r = self.underlying.substring_char(self.index, n);
        proof {
            assert(r@ =~= self.text().skip(self.pos()));
        }
        r
    }

    pub fn position(&self) -> (r: usize)
        ensures
            r == self.pos(),
    {
        self.index
    }
}

/// A pair of scope delimiters.
#[derive(Debug, Clone, Copy)]
pub struct ScopeDeclaration {
    pub begin: char,
    pub end: char,
}

impl ScopeDeclaration {
    pub fn begin(&self, c: char) -> (r: bool)
        ensures
            r == (self.begin == c),
    {
        self.begin == c
    }

    pub fn end(&self, c: char) -> (r: bool)
        ensures
            r == (self.end == c),
    {
        self.end == c
    }
}

/// Whether some declaration opens a scope at this character.
pub open spec fn is_scope_begin(decls: Seq<ScopeDeclaration>, c: char) -> bool {
    exists|k: int| 0 <= k < decls.len() && #[trigger] decls[k].begin == c
}

/// Whether some declaration closes a scope at this character.
pub open spec fn is_scope_end(decls: Seq<ScopeDeclaration>, c: char) -> bool {
    exists|k: int| 0 <= k < decls.len() && #[trigger] decls[k].end == c
}

/// Scans from position `i` at nesting `depth` for the position right
/// after the scope closes; an opener wins over a closer when a character
/// is both.
pub open spec fn scope_scan(s: Seq<char>, decls: Seq<ScopeDeclaration>, i: int, depth: int) -> Option<int>
    decreases s.len() - i,
{
    if depth == 0 {
        Some(i)
    } else if i < 0 || i >= s.len() {
        None
    } else if is_scope_begin(decls, s[i]) {
        scope_scan(s, decls, i + 1, depth + 1)
    } else if is_scope_end(decls, s[i]) {
        scope_scan(s, decls, i + 1, depth - 1)
    } else {
        scope_scan(s, decls, i + 1, depth)
    }
}

/// One past the position where the scope opened by the first character
/// closes, and one more; `None` when the first character opens no scope
/// or the scope never closes.
pub open spec fn spec_index_out_of_scope(s: Seq<char>, decls: Seq<ScopeDeclaration>) -> Option<
    int,
> {
    if s.len() > 0 && is_scope_begin(decls, s[0]) {
        match scope_scan(s, decls, 1, 1) {
            Some(i) => Some(i + 1),
            None => None,
        }
    } else {
        None
    }
}

/// A successful scan lands after its start and within the text.
pub proof fn lemma_scope_scan_bounds(s: Seq<char>, decls: Seq<ScopeDeclaration>, i: int, depth: int)
    requires
        0 <= i <= s.len(),
        depth >= 1,
    ensures
        match scope_scan(s, decls, i, depth) {
            Some(j) => i + 1 <= j <= s.len(),
            None => true,
        },
    decreases s.len() - i,
{
    if i < s.len() {
        if is_scope_begin(decls, s[i]) {
            lemma_scope_scan_bounds(s, decls, i + 1, depth + 1);
        } else if is_scope_end(decls, s[i]) {
            if depth > 1 {
                lemma_scope_scan_bounds(s, decls, i + 1, depth - 1);
            }
        } else {
            lemma_scope_scan_bounds(s, decls, i + 1, depth);
        }
    }
}


fn any_begin(decls: &[ScopeDeclaration], c: char) -> (r: bool)
    ensures
        r == is_scope_begin(decls@, c),
{
    let mut k: usize = 0;
    while k < decls.len()
        invariant
            0 <= k <= decls@.len(),
            forall|q: int| 0 <= q < k ==> #[trigger] decls@[q].begin != c,
        decreases decls@.len() - k,
    {
        if decls[k].begin == c {
            return true;
        }
        k += 1;
    }
    false
}

fn any_end(decls: &[ScopeDeclaration], c: char) -> (r: bool)
    ensures
        r == is_scope_end(decls@, c),
{
    let mut k: usize = 0;
    while k < decls.len()
        invariant
            0 <= k <= decls@.len(),
            forall|q: int| 0 <= q < k ==> #[trigger] decls@[q].end != c,
        decreases decls@.len() - k,
    {
        if decls[k].end == c {
            return true;
        }
        k += 1;
    }
    false
}

/// Splitting positions found by scope-aware search: the first position at
/// top level where the pattern matches, skipping over closed scopes.
pub open spec fn split_scan<P: Matcher>(
    s: Seq<char>,
    h: P,
    decls: Seq<ScopeDeclaration>,
    i: int,
) -> Option<int>
    decreases s.len() - i,
    when 0 <= i <= s.len()
    via split_scan_decreases::<P>
{
    if i >= s.len() {
        None
    } else {
        match spec_index_out_of_scope(s.skip(i), decls) {
            Some(e) => split_scan(s, h, decls, i + e - 1),
            None => if h.spec_is_start(s.skip(i)) {
                Some(i)
            } else {
                split_scan(s, h, decls, i + 1)
            },
        }
    }
}

#[via_fn]
proof fn split_scan_decreases<P: Matcher>(s: Seq<char>, h: P, decls: Seq<ScopeDeclaration>, i: int) {
    if 0 <= i < s.len() {
        match spec_index_out_of_scope(s.skip(i), decls) {
            Some(e) => {
                lemma_scope_scan_bounds(s.skip(i), decls, 1, 1);
            },
            None => {},
        }
    }
}

/// Scope-aware searching and slicing over strings.
pub trait StringExtension: View<V = Seq<char>> {
    /// One past the closing of the scope opened by the first character.
    fn index_out_of_scope(&self, scope_declarations: &[ScopeDeclaration]) -> (r: Option<usize>)
        requires
            self@.len() < usize::MAX,
        ensures
            match r {
                Some(i) => spec_index_out_of_scope(self@, scope_declarations@) == Some(i as int),
                None => spec_index_out_of_scope(self@, scope_declarations@) is None,
            },
    ;

    /// The contents of the scope opened by the first character.
    fn scoped_slice<'a>(&'a self, scope_declarations: &[ScopeDeclaration]) -> (r: Option<&'a str>)
        requires
            self@.len() < usize::MAX,
        ensures
            match spec_index_out_of_scope(self@, scope_declarations@) {
                Some(j) => r is Some && r->Some_0@ == self@.subrange(1, j - 2),
                None => r is None,
            },
    ;

    /// Splits at the first match of the pattern outside any closed scope:
    /// the part before it, and the rest, the match itself kept only when
    /// asked for.
    fn scoped_split<'a, P: Matcher>(
        &'a self,
        haystack: &P,
        scope_declarations: &[ScopeDeclaration],
        include_haystack: bool,
        haystack_size: usize,
    ) -> (r: (&'a str, Option<&'a str>))
        requires
            self@.len() < usize::MAX,
            haystack_size as int <= haystack.spec_size(),
        ensures
            match split_scan(self@, *haystack, scope_declarations@, 0) {
                Some(i) => r.0@ == self@.subrange(0, i) && r.1 is Some && r.1->Some_0@
                    == self@.skip(
                    i + if include_haystack {
                        0int
                    } else {
                        haystack_size as int
                    },
                ),
                None => r.0@ == self@ && r.1 is None,
            },
    ;

    /// The slice between two converted positions.
    fn slice_extended<'a, B: IndexConvert, E: IndexConvert>(&'a self, begin: B, end: E) -> (r:
        &'a str)
        requires
            begin.index_ok(self@),
            end.index_ok(self@),
            0 <= begin.spec_index(self@) <= end.spec_index(self@) <= self@.len(),
        ensures
            r@ == self@.subrange(begin.spec_index(self@), end.spec_index(self@)),
    ;
}

impl StringExtension for str {
    #[verifier::loop_isolation(false)]
    fn index_out_of_scope(&self, scope_declarations: &[ScopeDeclaration]) -> (r: Option<usize>) {
        let n = self.unicode_len();
        if n == 0 {
            return None;
        }
        if !any_begin(scope_declarations, self.get_char(0)) {
            return None;
        }
        let mut i: usize = 1;
        let mut depth: usize = 1;
        while depth != 0
            invariant
                1 <= i <= n,
                depth <= i,
                scope_scan(self@, scope_declarations@, 1, 1) == scope_scan(
                    self@,
                    scope_declarations@,
                    i as int,
                    depth as int,
                ),
            decreases n - i, depth,
        {
            if i >= n {
                return None;
            }
            let c = self.get_char(i);
            if any_begin(scope_declarations, c) {
                depth = depth + 1;
            } else if any_end(scope_declarations, c) {
                depth = depth - 1;
            }
            i += 1;
        }
        proof {
            lemma_scope_scan_bounds(self@, scope_declarations@, 1, 1);
        }
        Some(i + 1)
    }

    fn scoped_slice<'a>(&'a self, scope_declarations: &[ScopeDeclaration]) -> (r: Option<&'a str>) {
        let idx = match self.index_out_of_scope(scope_declarations) {
            Some(idx) => idx,
            None => {
                return None;
            },
        };
        proof {
            lemma_scope_scan_bounds(self@, scope_declarations@, 1, 1);
        }
        Some(self.substring_char(1, idx - 2))
    }

    #[verifier::loop_isolation(false)]
    fn scoped_split<'a, P: Matcher>(
        &'a self,
        haystack: &P,
        scope_declarations: &[ScopeDeclaration],
        include_haystack: bool,
        haystack_size: usize,
    ) -> (r: (&'a str, Option<&'a str>)) {
        let n = self.unicode_len();
        let mut idx: usize = 0;
        while idx < n
            invariant
                0 <= idx <= n,
                split_scan(self@, *haystack, scope_declarations@, 0) == split_scan(
                    self@,
                    *haystack,
                    scope_declarations@,
                    idx as int,
                ),
            decreases n - idx,
        {
            let rest = self.substring_char(idx, n);
            proof {
                assert(rest@ =~= self@.skip(idx as int));
            }
            match rest.index_out_of_scope(scope_declarations) {
                Some(e) => {
                    proof {
                        lemma_scope_scan_bounds(rest@, scope_declarations@, 1, 1);
                    }
                    idx = idx + (e - 1);
                },
                None => {
                    if haystack.is_start(rest) {
                        let cut = if include_haystack {
                            idx
                        } else {
                            idx + haystack_size
                        };
                        let head = self.substring_char(0, idx);
                        let tail = self.substring_char(cut, n);
                        proof {
                            assert(tail@ =~= self@.skip(cut as int));
                        }
                        return (head, Some(tail));
                    }
                    idx += 1;
                },
            }
        }
        (self, None)
    }

    fn slice_extended<'a, B: IndexConvert, E: IndexConvert>(&'a self, begin: B, end: E) -> (r:
        &'a str) {
        let from = begin.to_str_index(self);
        let to = end.to_str_index(self);
        self.substring_char(from, to)
    }
}

/// A character position given directly.
#[derive(Debug, Copy, Clone)]
pub struct CharIndex(pub usize);

/// A byte offset into ASCII text, where it names the same position.
#[derive(Debug, Copy, Clone)]
pub struct ByteIndex(pub usize);

/// The end of the text.
#[derive(Debug, Copy, Clone)]
pub struct EndIndex;

/// Conversion of a position designator to a character index.
pub trait IndexConvert: Sized {
    spec fn spec_index(&self, s: Seq<char>) -> int;

    spec fn index_ok(&self, s: Seq<char>) -> bool;

    fn to_str_index(self, s: &str) -> (r: usize)
        requires
            self.index_ok(s@),
        ensures
            r == self.spec_index(s@),
    ;
}

impl IndexConvert for CharIndex {
    open spec fn spec_index(&self, s: Seq<char>) -> int {
        self.0 as int
    }

    open spec fn index_ok(&self, s: Seq<char>) -> bool {
        true
    }

    fn to_str_index(self, s: &str) -> (r: usize) {
        self.0
    }
}

impl IndexConvert for ByteIndex {
    open spec fn spec_index(&self, s: Seq<char>) -> int {
        self.0 as int
    }

    open spec fn index_ok(&self, s: Seq<char>) -> bool {
        vstd::utf8::is_ascii_chars(s) && self.0 <= s.len()
    }

    fn to_str_index(self, s: &str) -> (r: usize) {
        self.0
    }
}

impl IndexConvert for EndIndex {
    open spec fn spec_index(&self, s: Seq<char>) -> int {
        s.len() as int
    }

    open spec fn index_ok(&self, s: Seq<char>) -> bool {
        true
    }

    fn to_str_index(self, s: &str) -> (r: usize) {
        s.unicode_len()
    }
}


/// Position of the first occurrence of a character, at or after `from`.
pub open spec fn find_char(s: Seq<char>, c: char, from: int) -> Option<int>
    decreases s.len() - from,
{
    if from < 0 || from >= s.len() {
        None
    } else if s[from] == c {
        Some(from)
    } else {
        find_char(s, c, from + 1)
    }
}

pub proof fn lemma_find_char_spec(s: Seq<char>, c: char, from: int)
    requires
        0 <= from <= s.len(),
    ensures
        match find_char(s, c, from) {
            Some(i) => from <= i < s.len() && s[i] == c,
            None => true,
        },
    decreases s.len() - from,
{
    if from < s.len() && s[from] != c {
        lemma_find_char_spec(s, c, from + 1);
    }
}

/// Splits at the first occurrence of a character, which is dropped.
#[verifier::loop_isolation(false)]
pub fn split_once_char<'a>(s: &'a str, c: char) -> (r: Option<(&'a str, &'a str)>)
    ensures
        match find_char(s@, c, 0) {
            Some(i) => r is Some && r->Some_0.0@ == s@.subrange(0, i) && r->Some_0.1@
                == s@.skip(i + 1),
            None => r is None,
        },
{
    let n = s.unicode_len();
    let mut i: usize = 0;
    while i < n
        invariant
            0 <= i <= n,
            find_char(s@, c, 0) == find_char(s@, c, i as int),
        decreases n - i,
    {
        if s.get_char(i) == c {
            let head = s.substring_char(0, i);
            let tail = s.substring_char(i + 1, n);
            proof {
                assert(tail@ =~= s@.skip(i + 1));
            }
            return Some((head, tail));
        }
        i += 1;
    }
    None
}

/// Whether a character counts as trimmable spacing.
pub open spec fn is_space(c: char) -> bool {
    c == ' ' || c == '\t' || c == '\n' || c == '\r'
}

fn space_exec(c: char) -> (r: bool)
    ensures
        r == is_space(c),
{
    c == ' ' || c == '\t' || c == '\n' || c == '\r'
}

/// How many trimmable characters the text starts with.
pub open spec fn lead_spaces(s: Seq<char>) -> int
    decreases s.len(),
{
    if s.len() == 0 || !is_space(s[0]) {
        0
    } else {
        1 + lead_spaces(s.drop_first())
    }
}

/// How many trimmable characters the text ends with.
pub open spec fn trail_spaces(s: Seq<char>) -> int
    decreases s.len(),
{
    if s.len() == 0 || !is_space(s.last()) {
        0
    } else {
        1 + trail_spaces(s.drop_last())
    }
}

/// The text with leading and trailing spacing removed.
pub open spec fn spec_trim(s: Seq<char>) -> Seq<char> {
    if lead_spaces(s) == s.len() {
        Seq::empty()
    } else {
        s.subrange(lead_spaces(s), s.len() - trail_spaces(s))
    }
}

pub proof fn lemma_lead_spaces(s: Seq<char>)
    ensures
        0 <= lead_spaces(s) <= s.len(),
        lead_spaces(s) < s.len() ==> !is_space(s[lead_spaces(s)]),
        forall|j: int| 0 <= j < lead_spaces(s) ==> is_space(#[trigger] s[j]),
    decreases s.len(),
{
    if s.len() > 0 && is_space(s[0]) {
        lemma_lead_spaces(s.drop_first());
        assert(forall|j: int|
            0 <= j < s.len() - 1 ==> #[trigger] s.drop_first()[j] == s[j + 1]);
        assert forall|j: int| 0 <= j < lead_spaces(s) implies is_space(#[trigger] s[j]) by {
            if j > 0 {
                assert(s.drop_first()[j - 1] == s[j]);
                assert(is_space(s.drop_first()[j - 1]));
            }
        }
    }
}

pub proof fn lemma_trail_spaces(s: Seq<char>)
    ensures
        0 <= trail_spaces(s) <= s.len(),
        trail_spaces(s) < s.len() ==> !is_space(s[s.len() - 1 - trail_spaces(s)]),
        forall|j: int| s.len() - trail_spaces(s) <= j < s.len() ==> is_space(#[trigger] s[j]),
    decreases s.len(),
{
    if s.len() > 0 && is_space(s.last()) {
        lemma_trail_spaces(s.drop_last());
        assert(forall|j: int| 0 <= j < s.len() - 1 ==> #[trigger] s.drop_last()[j] == s[j]);
        assert forall|j: int|
            s.len() - trail_spaces(s) <= j < s.len() implies is_space(#[trigger] s[j]) by {
            if j < s.len() - 1 {
                assert(s.drop_last()[j] == s[j]);
                assert(is_space(s.drop_last()[j]));
            }
        }
    }
}

/// The leading-space count is pinned by its characteristic properties.
pub proof fn lemma_lead_spaces_is(s: Seq<char>, a: int)
    requires
        0 <= a <= s.len(),
        forall|j: int| 0 <= j < a ==> is_space(#[trigger] s[j]),
        a < s.len() ==> !is_space(s[a]),
    ensures
        lead_spaces(s) == a,
    decreases s.len(),
{
    if s.len() == 0 {
    } else if a == 0 {
        lemma_lead_spaces(s);
    } else {
        assert(is_space(s[0]));
        assert(forall|j: int|
            0 <= j < s.len() - 1 ==> #[trigger] s.drop_first()[j] == s[j + 1]);
        lemma_lead_spaces_is(s.drop_first(), a - 1);
    }
}

/// The trailing-space count is pinned by its characteristic properties.
pub proof fn lemma_trail_spaces_is(s: Seq<char>, b: int)
    requires
        0 <= b <= s.len(),
        forall|j: int| s.len() - b <= j < s.len() ==> is_space(#[trigger] s[j]),
        b < s.len() ==> !is_space(s[s.len() - 1 - b]),
    ensures
        trail_spaces(s) == b,
    decreases s.len(),
{
    if s.len() == 0 {
    } else if b == 0 {
        lemma_trail_spaces(s);
    } else {
        assert(is_space(s.last()));
        assert(forall|j: int| 0 <= j < s.len() - 1 ==> #[trigger] s.drop_last()[j] == s[j]);
        lemma_trail_spaces_is(s.drop_last(), b - 1);
    }
}

/// Removes leading and trailing spacing.
#[verifier::loop_isolation(false)]
pub fn trim_spaces<'a>(s: &'a str) -> (r: &'a str)
    ensures
        r@ == spec_trim(s@),
{
    let n = s.unicode_len();
    let mut a: usize = 0;
    while a < n && space_exec(s.get_char(a))
        invariant
            0 <= a <= n,
            forall|j: int| 0 <= j < a ==> is_space(#[trigger] s@[j]),
        decreases n - a,
    {
        a += 1;
    }
    proof {
        lemma_lead_spaces_is(s@, a as int);
    }
    if a == n {
        let r = s.substring_char(n, n);
        proof {
            assert(r@ =~= Seq::<char>::empty());
        }
        return r;
    }
    let mut b: usize = 0;
    while b < n && space_exec(s.get_char(n - 1 - b))
        invariant
            0 <= b <= n,
            forall|j: int| n - b <= j < n ==> is_space(#[trigger] s@[j]),
            a < n && !is_space(s@[a as int]),
        decreases n - b,
    {
        proof {
            if b + 1 > n - a {
                assert(is_space(s@[a as int]));
            }
        }
        b += 1;
    }
    proof {
        lemma_trail_spaces_is(s@, b as int);
    }
    s.substring_char(a, n - b)
}


/// A found split position lies within the text.
pub proof fn lemma_split_scan_bounds<P: Matcher>(
    s: Seq<char>,
    h: P,
    decls: Seq<ScopeDeclaration>,
    from: int,
)
    requires
        0 <= from <= s.len(),
    ensures
        match split_scan(s, h, decls, from) {
            Some(i) => from <= i < s.len(),
            None => true,
        },
    decreases s.len() - from,
{
    if from < s.len() {
        match spec_index_out_of_scope(s.skip(from), decls) {
            Some(e) => {
                lemma_scope_scan_bounds(s.skip(from), decls, 1, 1);
                lemma_split_scan_bounds(s, h, decls, from + e - 1);
            },
            None => {
                if !h.spec_is_start(s.skip(from)) {
                    lemma_split_scan_bounds(s, h, decls, from + 1);
                }
            },
        }
    }
}

/// Trimming never lengthens the text.
pub proof fn lemma_trim_len(s: Seq<char>)
    ensures
        spec_trim(s).len() <= s.len(),
{
    lemma_lead_spaces(s);
    lemma_trail_spaces(s);
}

} // verus!
