//! Column layout for the help message: word wrapping, hyphenation and column padding.
use vstd::prelude::*;
use crate::text::append_chars;
use crate::text::append_spaces;
use crate::text::chars_of;
use crate::text::string_of;

verus! {

/// `n` spaces.
pub open spec fn spaces(n: nat) -> Seq<char> {
    Seq::new(n, |i: int| ' ')
}

/// `s` padded with spaces on the right up to `w` characters (unchanged when already that long).
pub open spec fn pad_to(s: Seq<char>, w: nat) -> Seq<char> {
    if s.len() < w {
        s + spaces((w - s.len()) as nat)
    } else {
        s
    }
}

/// The abstract value of a sequence of character vectors.
pub open spec fn lines_view(v: Seq<Vec<char>>) -> Seq<Seq<char>> {
    v.map_values(|x: Vec<char>| x@)
}

/// The abstract value of a sequence of strings.
pub open spec fn strings_view(v: Seq<String>) -> Seq<Seq<char>> {
    v.map_values(|x: String| x@)
}

/// The pieces `s` splits into at each occurrence of `c` (as `str::split` yields them).
pub open spec fn split_on(s: Seq<char>, c: char) -> Seq<Seq<char>>
    decreases s.len(),
{
    if s.len() == 0 {
        seq![Seq::<char>::empty()]
    } else {
        let rest = split_on(s.drop_last(), c);
        if s.last() == c {
            rest.push(Seq::<char>::empty())
        } else {
            rest.update(rest.len() - 1, rest.last().push(s.last()))
        }
    }
}

/// The full lines that hyphenating `word` from position `left` produces, `inc` characters
/// (and a hyphen) per line.
pub open spec fn hyphen_lines(word: Seq<char>, inc: nat, left: nat) -> Seq<Seq<char>>
    decreases word.len() - left,
{
    if inc > 0 && left + inc + 1 < word.len() {
        seq![word.subrange(left as int, (left + inc) as int).push('-')] + hyphen_lines(word, inc, left + inc)
    } else {
        Seq::empty()
    }
}

/// What remains of `word` after hyphenating it from position `left`.
pub open spec fn hyphen_rest(word: Seq<char>, inc: nat, left: nat) -> Seq<char>
    decreases word.len() - left,
{
    if inc > 0 && left + inc + 1 < word.len() {
        hyphen_rest(word, inc, left + inc)
    } else {
        word.subrange(left as int, word.len() as int)
    }
}

/// The lines completed and the line in progress after wrapping the first `n` words.
pub open spec fn wrap_state(words: Seq<Seq<char>>, width: nat, n: nat) -> (Seq<Seq<char>>, Seq<char>)
    decreases n,
{
    if n == 0 || n > words.len() {
        (Seq::empty(), Seq::empty())
    } else {
        let prev = wrap_state(words, width, (n - 1) as nat);
        let w = words[n - 1];
        let inc = (width - 1) as nat;
        if w.len() == 0 {
            prev
        } else if prev.1.len() == 0 {
            (prev.0 + hyphen_lines(w, inc, 0), hyphen_rest(w, inc, 0))
        } else if prev.1.len() + w.len() + 1 <= width {
            (prev.0, prev.1.push(' ') + w)
        } else {
            (prev.0.push(prev.1) + hyphen_lines(w, inc, 0), hyphen_rest(w, inc, 0))
        }
    }
}

/// The lines of `paragraph` wrapped to `width` characters: words are separated by single spaces,
/// and a word longer than a line is hyphenated.
pub open spec fn chunk_spec(paragraph: Seq<char>, width: nat) -> Seq<Seq<char>> {
    let words = split_on(paragraph, ' ');
    let st = wrap_state(words, width, words.len());
    if st.1.len() > 0 {
        st.0.push(st.1)
    } else {
        st.0
    }
}

/// Every hyphenated line is exactly `inc + 1` characters long, and the rest at most that.
pub proof fn lemma_hyphen_widths(word: Seq<char>, inc: nat, left: nat)
    requires
        inc > 0,
        left < word.len(),
    ensures
        forall|i: int| 0 <= i < hyphen_lines(word, inc, left).len() ==> #[trigger] hyphen_lines(word, inc, left)[i].len() == inc + 1,
        hyphen_rest(word, inc, left).len() <= inc + 1,
        hyphen_rest(word, inc, left).len() > 0,
    decreases word.len() - left,
{
    if left + inc + 1 < word.len() {
        lemma_hyphen_widths(word, inc, left + inc);
        let head = seq![word.subrange(left as int, (left + inc) as int).push('-')];
        assert forall|i: int| 0 <= i < hyphen_lines(word, inc, left).len() implies #[trigger] hyphen_lines(word, inc, left)[i].len() == inc + 1 by {
            if i > 0 {
                assert(hyphen_lines(word, inc, left)[i] == hyphen_lines(word, inc, left + inc)[i - 1]);
            }
        }
    }
}

/// Whether `paragraph` can be wrapped to `width`: a width of at least 2 (long words are
/// hyphenated), or no word longer than the width.
pub open spec fn fits_words(paragraph: Seq<char>, width: nat) -> bool {
    width >= 2 || forall|i: int| 0 <= i < split_on(paragraph, ' ').len() ==> #[trigger] split_on(paragraph, ' ')[i].len() <= width
}

/// Every line is at most `w` characters long.
pub open spec fn all_within(s: Seq<Seq<char>>, w: nat) -> bool {
    forall|i: int| 0 <= i < s.len() ==> #[trigger] s[i].len() <= w
}

proof fn lemma_all_within_add(a: Seq<Seq<char>>, b: Seq<Seq<char>>, w: nat)
    requires
        all_within(a, w),
        all_within(b, w),
    ensures
        all_within(a + b, w),
{
    assert forall|i: int| 0 <= i < (a + b).len() implies #[trigger] (a + b)[i].len() <= w by {
        if i < a.len() {
            assert((a + b)[i] == a[i]);
        } else {
            assert((a + b)[i] == b[i - a.len()]);
        }
    }
}

/// Hyphenate `word` into `width`-character lines: full lines go to `lines`, the rest to `current`.
fn hyphenate(width: usize, lines: &mut Vec<Vec<char>>, current: &mut Vec<char>, word: &Vec<char>)
    requires
        width >= 2 || 1 <= word@.len() <= width,
    ensures
        lines_view(final(lines)@) == lines_view(old(lines)@) + hyphen_lines(word@, (width - 1) as nat, 0),
        final(current)@ == old(current)@ + hyphen_rest(word@, (width - 1) as nat, 0),
{
    let increment = width - 1;
    let ghost inc = increment as nat;
    let mut left: usize = 0;
    while left < word.len() && word.len() - left > width
        invariant
            width >= 2 || (1 <= word@.len() <= width && left == 0),
            increment == width - 1,
            inc == increment,
            left <= word.len(),
            lines_view(old(lines)@) + hyphen_lines(word@, inc, 0) == lines_view(lines@) + hyphen_lines(word@, inc, left as nat),
            hyphen_rest(word@, inc, 0) == hyphen_rest(word@, inc, left as nat),
            *current == *old(current),
        decreases word.len() - left,
    {
        assert(width >= 2);
        let mut piece = crate::text::sub_chars(word, left, left + increment);
        piece.push('-');
        let ghost before = lines_view(lines@);
        let ghost pv = piece@;
        lines.push(piece);
        assert(lines_view(lines@) =~= before.push(pv));
        assert(hyphen_lines(word@, inc, left as nat) == seq![pv] + hyphen_lines(word@, inc, (left + increment) as nat));
        assert(before + (seq![pv] + hyphen_lines(word@, inc, (left + increment) as nat))
            =~= before.push(pv) + hyphen_lines(word@, inc, (left + increment) as nat));
        left = left + increment;
    }
    assert(hyphen_lines(word@, inc, left as nat) =~= Seq::<Seq<char>>::empty());
    assert(lines_view(old(lines)@) + hyphen_lines(word@, inc, 0) =~= lines_view(lines@));
    let rest = crate::text::sub_chars(word, if left <= word.len() { left } else { word.len() }, word.len());
    let mut k: usize = 0;
    let ghost start = current@;
    while k < rest.len()
        invariant
            k <= rest.len(),
            current@ == start + rest@.take(k as int),
            lines_view(old(lines)@) + hyphen_lines(word@, inc, 0) == lines_view(lines@),
        decreases rest.len() - k,
    {
        current.push(rest[k]);
        k = k + 1;
        assert(current@ =~= start + rest@.take(k as int));
    }
    assert(rest@.take(k as int) =~= rest@);
}

/// The pieces of `paragraph` between single spaces.
fn split_spaces(paragraph: &Vec<char>) -> (r: Vec<Vec<char>>)
    ensures
        lines_view(r@) == split_on(paragraph@, ' '),
{
    let mut words: Vec<Vec<char>> = Vec::new();
    let mut current: Vec<char> = Vec::new();
    let mut i: usize = 0;
    while i < paragraph.len()
        invariant
            i <= paragraph.len(),
            lines_view(words@).push(current@) == split_on(paragraph@.take(i as int), ' '),
        decreases paragraph.len() - i,
    {
        let c = paragraph[i];
        let ghost before = lines_view(words@);
        let ghost cur = current@;
        assert(paragraph@.take(i as int + 1).drop_last() =~= paragraph@.take(i as int));
        if c == ' ' {
            let mut done: Vec<char> = Vec::new();
            std::mem::swap(&mut done, &mut current);
            words.push(done);
            assert(lines_view(words@) =~= before.push(cur));
            assert(lines_view(words@).push(current@) =~= before.push(cur).push(Seq::<char>::empty()));
        } else {
            current.push(c);
            assert(lines_view(words@).push(current@) =~= before.push(cur).update(before.len() as int, cur.push(c)));
        }
        i = i + 1;
    }
    assert(paragraph@.take(i as int) =~= paragraph@);
    let ghost before = lines_view(words@);
    let ghost cur = current@;
    words.push(current);
    assert(lines_view(words@) =~= before.push(cur));
    words
}

/// Wrap `paragraph` into lines of at most `width` characters.
pub fn chunk(paragraph: &Vec<char>, width: usize) -> (r: Vec<Vec<char>>)
    requires
        fits_words(paragraph@, width as nat),
    ensures
        lines_view(r@) == chunk_spec(paragraph@, width as nat),
        all_within(chunk_spec(paragraph@, width as nat), width as nat),
{
    let words = split_spaces(paragraph);
    let ghost ws = split_on(paragraph@, ' ');
    let ghost inc = (width - 1) as nat;
    let mut lines: Vec<Vec<char>> = Vec::new();
    let mut current: Vec<char> = Vec::new();
    let mut n: usize = 0;
    while n < words.len()
        invariant
            fits_words(paragraph@, width as nat),
            ws == split_on(paragraph@, ' '),
            inc == (width - 1) as nat,
            lines_view(words@) == ws,
            n <= words@.len(),
            wrap_state(ws, width as nat, n as nat) == (lines_view(lines@), current@),
            current@.len() <= width,
            all_within(lines_view(lines@), width as nat),
        decreases words.len() - n,
    {
        let word = &words[n];
        let ghost before = lines_view(lines@);
        assert(word@ == ws[n as int]);
        assert(width >= 2 || word@.len() <= width);
        if word.len() == 0 {
        } else if current.len() == 0 {
            proof {
                if width >= 2 {
                    lemma_hyphen_widths(word@, inc, 0);
                } else {
                    assert(hyphen_lines(word@, inc, 0) =~= Seq::<Seq<char>>::empty());
                    assert(hyphen_rest(word@, inc, 0) =~= word@);
                }
            }
            let ghost old_lines = lines@;
            hyphenate(width, &mut lines, &mut current, word);
            assert(all_within(hyphen_lines(word@, inc, 0), width as nat));
            assert(current@ =~= hyphen_rest(word@, inc, 0));
            proof {
                lemma_all_within_add(lines_view(old_lines), hyphen_lines(word@, inc, 0), width as nat);
            }
        } else if word.len() < width - current.len() {
            current.push(' ');
            let mut k: usize = 0;
            let ghost start = current@;
            while k < word.len()
                invariant
                    k <= word@.len(),
                    current@ == start + word@.take(k as int),
                    start.len() + word@.len() <= width,
                decreases word.len() - k,
            {
                current.push(word[k]);
                k = k + 1;
                assert(current@ =~= start + word@.take(k as int));
            }
            assert(word@.take(k as int) =~= word@);
        } else {
            proof {
                if width >= 2 {
                    lemma_hyphen_widths(word@, inc, 0);
                } else {
                    assert(hyphen_lines(word@, inc, 0) =~= Seq::<Seq<char>>::empty());
                    assert(hyphen_rest(word@, inc, 0) =~= word@);
                }
            }
            let mut done: Vec<char> = Vec::new();
            std::mem::swap(&mut done, &mut current);
            let ghost dv = done@;
            lines.push(done);
            assert(lines_view(lines@) =~= before.push(dv));
            let ghost old_lines = lines@;
            hyphenate(width, &mut lines, &mut current, word);
            assert(all_within(hyphen_lines(word@, inc, 0), width as nat));
            assert(current@ =~= hyphen_rest(word@, inc, 0));
            assert(lines_view(lines@) == lines_view(old_lines) + hyphen_lines(word@, inc, 0));
            assert(lines_view(old_lines).len() == old_lines.len());
            proof {
                lemma_all_within_add(lines_view(old_lines), hyphen_lines(word@, inc, 0), width as nat);
            }
        }
        n = n + 1;
    }
    if current.len() > 0 {
        let ghost before = lines_view(lines@);
        let ghost cv = current@;
        lines.push(current);
        assert(lines_view(lines@) =~= before.push(cv));
    }
    lines
}

/// The abstract widths of a column renderer.
pub struct RendererSpec {
    pub padding: nat,
    pub left: nat,
    pub middle: nat,
    pub rights: Seq<nat>,
}

/// The gap between two columns, in characters (at least 1).
#[derive(Debug)]
pub struct PaddingWidth(usize);

/// The width of the left column, in characters (at least 1).
#[derive(Debug)]
pub struct LeftWidth(usize);

/// The width of the middle column, in characters (at least 2, so that words can be hyphenated).
#[derive(Debug)]
pub struct MiddleWidth(usize);

/// The width of one right column, in characters (at least 1).
#[derive(Debug)]
pub struct RightWidth(usize);

/// The total width available, in characters.
#[derive(Debug)]
pub struct TotalWidth(pub usize);

impl View for PaddingWidth {
    type V = nat;

    closed spec fn view(&self) -> nat {
        self.0 as nat
    }
}

impl View for LeftWidth {
    type V = nat;

    closed spec fn view(&self) -> nat {
        self.0 as nat
    }
}

impl View for MiddleWidth {
    type V = nat;

    closed spec fn view(&self) -> nat {
        self.0 as nat
    }
}

impl View for RightWidth {
    type V = nat;

    closed spec fn view(&self) -> nat {
        self.0 as nat
    }
}

impl PaddingWidth {
    #[verifier::type_invariant]
    spec fn inv(self) -> bool {
        self.0 >= 1
    }

    /// A width known to be valid.
    pub fn of(width: usize) -> (r: Self)
        requires
            width >= 1,
        ensures
            r@ == width,
    {
        PaddingWidth(width)
    }

    /// A padding of `width`; refused when it is 0.
    pub fn new(width: usize) -> (r: Result<Self, ()>)
        ensures
            r is Ok <==> width >= 1,
            r matches Ok(p) ==> p@ == width,
    {
        if width >= 1 {
            Ok(PaddingWidth(width))
        } else {
            Err(())
        }
    }

    /// The width.
    pub fn value(&self) -> (r: usize)
        ensures
            r == self@,
            r >= 1,
    {
        proof {
            use_type_invariant(self);
        }
        self.0
    }
}

impl LeftWidth {
    #[verifier::type_invariant]
    spec fn inv(self) -> bool {
        self.0 >= 1
    }

    /// A width known to be valid.
    pub fn of(width: usize) -> (r: Self)
        requires
            width >= 1,
        ensures
            r@ == width,
    {
        LeftWidth(width)
    }

    /// A left column of `width`; refused when it is 0.
    pub fn new(width: usize) -> (r: Result<Self, ()>)
        ensures
            r is Ok <==> width >= 1,
            r matches Ok(p) ==> p@ == width,
    {
        if width >= 1 {
            Ok(LeftWidth(width))
        } else {
            Err(())
        }
    }

    /// The width.
    pub fn value(&self) -> (r: usize)
        ensures
            r == self@,
            r >= 1,
    {
        proof {
            use_type_invariant(self);
        }
        self.0
    }
}

impl MiddleWidth {
    #[verifier::type_invariant]
    spec fn inv(self) -> bool {
        self.0 >= 2
    }

    /// A width known to be valid.
    pub fn of(width: usize) -> (r: Self)
        requires
            width >= 2,
        ensures
            r@ == width,
    {
        MiddleWidth(width)
    }

    /// A middle column of `width`; refused when it is under 2.
    pub fn new(width: usize) -> (r: Result<Self, ()>)
        ensures
            r is Ok <==> width >= 2,
            r matches Ok(p) ==> p@ == width,
    {
        if width >= 2 {
            Ok(MiddleWidth(width))
        } else {
            Err(())
        }
    }

    /// The width.
    pub fn value(&self) -> (r: usize)
        ensures
            r == self@,
            r >= 2,
    {
        proof {
            use_type_invariant(self);
        }
        self.0
    }
}

impl RightWidth {
    #[verifier::type_invariant]
    spec fn inv(self) -> bool {
        self.0 >= 1
    }

    /// A width known to be valid.
    pub fn of(width: usize) -> (r: Self)
        requires
            width >= 1,
        ensures
            r@ == width,
    {
        RightWidth(width)
    }

    /// A right column of `width`; refused when it is 0.
    pub fn new(width: usize) -> (r: Result<Self, ()>)
        ensures
            r is Ok <==> width >= 1,
            r matches Ok(p) ==> p@ == width,
    {
        if width >= 1 {
            Ok(RightWidth(width))
        } else {
            Err(())
        }
    }

    /// The width.
    pub fn value(&self) -> (r: usize)
        ensures
            r == self@,
            r >= 1,
    {
        proof {
            use_type_invariant(self);
        }
        self.0
    }
}

/// The abstract value of a sequence of right widths.
pub open spec fn rights_view(v: Seq<RightWidth>) -> Seq<nat> {
    v.map_values(|r: RightWidth| r@)
}

/// The width under which the middle column is not shrunk: room for three words of five letters.
pub const MINIMUM_MIDDLE_WIDTH: usize = 17;

/// The sum of the widths.
pub open spec fn sum_widths(s: Seq<nat>) -> nat
    decreases s.len(),
{
    if s.len() == 0 {
        0
    } else {
        sum_widths(s.drop_last()) + s.last()
    }
}

proof fn lemma_sum_prefix(s: Seq<nat>, i: int)
    requires
        0 <= i <= s.len(),
    ensures
        sum_widths(s.take(i)) <= sum_widths(s),
    decreases s.len(),
{
    if i < s.len() {
        assert(s.drop_last().take(i) =~= s.take(i));
        lemma_sum_prefix(s.drop_last(), i);
    } else {
        assert(s.take(i) =~= s);
    }
}

/// The middle width that the layout prefers: the requested one, but at least the minimum.
pub open spec fn preferred_middle(middle: nat) -> nat {
    if middle > MINIMUM_MIDDLE_WIDTH { middle } else { MINIMUM_MIDDLE_WIDTH as nat }
}

/// The preferred middle width, when all the columns fit within the target width.
pub open spec fn fitted_middle_spec(padding: nat, left: nat, middle: nat, rights: Seq<nat>, total: nat) -> Option<nat> {
    if preferred_middle(middle) + non_middle_width(padding, left, rights) <= target_width(total) {
        Some(preferred_middle(middle))
    } else {
        None
    }
}

/// The widths that are not the middle column: the left column and the right columns, with the
/// padding between every two columns.
pub open spec fn non_middle_width(padding: nat, left: nat, rights: Seq<nat>) -> nat {
    if rights.len() == 0 {
        left + padding
    } else {
        left + padding + padding + sum_widths(rights) + ((rights.len() - 1) as nat) * padding
    }
}

/// The share of the total width that the columns aim for: 95%, rounded down.
pub open spec fn target_width(total: nat) -> nat {
    total * 95 / 100
}

/// The middle width that the guided layout selects.
pub open spec fn guided_middle(padding: nat, left: nat, middle: nat, rights: Seq<nat>, total: nat) -> nat {
    let non_middle = non_middle_width(padding, left, rights);
    let preferred = preferred_middle(middle);
    if preferred + non_middle <= target_width(total) {
        preferred
    } else if non_middle < total {
        let fitted = (total - non_middle) as nat;
        if fitted > MINIMUM_MIDDLE_WIDTH { fitted } else { MINIMUM_MIDDLE_WIDTH as nat }
    } else {
        MINIMUM_MIDDLE_WIDTH as nat
    }
}

/// The right column text: padding, then each item padded to its column, separated by padding
/// (the last item is not padded).
pub open spec fn right_tail(items: Seq<Seq<char>>, widths: Seq<nat>, padding: nat, i: nat) -> Seq<char>
    decreases items.len() - i,
{
    if i >= items.len() {
        Seq::empty()
    } else if i + 1 < items.len() {
        pad_to(items[i as int], widths[i as int]) + spaces(padding) + right_tail(items, widths, padding, i + 1)
    } else {
        items[i as int]
    }
}

/// The text of the right columns (empty when there are no items).
pub open spec fn right_text(items: Seq<Seq<char>>, widths: Seq<nat>, padding: nat) -> Seq<char> {
    if items.len() == 0 {
        Seq::empty()
    } else {
        spaces(padding) + right_tail(items, widths, padding, 0)
    }
}

/// Line `i` of a rendering whose middle column wrapped into `parts`.
pub open spec fn render_line(r: RendererSpec, indent: nat, left: Seq<char>, parts: Seq<Seq<char>>, right: Seq<char>, i: int) -> Seq<char> {
    let mcw = (r.middle - indent) as nat;
    if i == 0 {
        if right.len() == 0 {
            spaces(indent) + pad_to(left, r.left) + spaces(r.padding) + parts[0]
        } else {
            spaces(indent) + pad_to(left, r.left) + spaces(r.padding) + pad_to(parts[0], mcw) + right
        }
    } else {
        spaces(indent) + spaces(r.left) + spaces(r.padding) + parts[i]
    }
}

/// The lines of one rendered row: `left` in the left column, `middle` wrapped in the middle
/// column (narrowed by `indent`), and `items` in the right columns of the first line.
pub open spec fn render_spec(r: RendererSpec, indent: nat, left: Seq<char>, middle: Seq<char>, items: Seq<Seq<char>>) -> Seq<Seq<char>> {
    let mcw = (r.middle - indent) as nat;
    let parts = chunk_spec(middle, mcw);
    let right = right_text(items, r.rights, r.padding);
    if parts.len() == 0 {
        if right.len() == 0 {
            seq![spaces(indent) + pad_to(left, r.left)]
        } else {
            seq![spaces(indent) + pad_to(left, r.left) + spaces(r.padding) + spaces(mcw) + right]
        }
    } else {
        Seq::new(parts.len(), |i: int| render_line(r, indent, left, parts, right, i))
    }
}

/// Appends `s` padded with spaces to `w` characters.
fn append_padded(a: &mut Vec<char>, s: &Vec<char>, w: usize)
    ensures
        final(a)@ == old(a)@ + pad_to(s@, w as nat),
{
    append_chars(a, s);
    if s.len() < w {
        append_spaces(a, w - s.len());
    }
}

/// Lays out rows of text in a left column, a wrapped middle column and right columns.
#[derive(Debug)]
pub struct ColumnRenderer {
    padding: PaddingWidth,
    left: LeftWidth,
    middle: MiddleWidth,
    rights: Vec<RightWidth>,
}

impl View for ColumnRenderer {
    type V = RendererSpec;

    closed spec fn view(&self) -> RendererSpec {
        RendererSpec {
            padding: self.padding@,
            left: self.left@,
            middle: self.middle@,
            rights: rights_view(self.rights@),
        }
    }
}

impl ColumnRenderer {
    /// The renderer's widths are valid: padding and left at least 1, middle at least 2, each right at least 1.
    pub closed spec fn wf(&self) -> bool {
        &&& self@.padding >= 1
        &&& self@.left >= 1
        &&& self@.middle >= 2
        &&& forall|i: int| 0 <= i < self@.rights.len() ==> #[trigger] self@.rights[i] >= 1
    }

    /// A renderer with the given widths.
    pub fn new(padding: PaddingWidth, left: LeftWidth, middle: MiddleWidth, rights: Vec<RightWidth>) -> (r: Self)
        ensures
            r.wf(),
            r@ == (RendererSpec { padding: padding@, left: left@, middle: middle@, rights: rights_view(rights@) }),
    {
        proof {
            use_type_invariant(&padding);
            use_type_invariant(&left);
            use_type_invariant(&middle);
        }
        let mut i: usize = 0;
        while i < rights.len()
            invariant
                i <= rights@.len(),
                forall|j: int| 0 <= j < i ==> #[trigger] rights_view(rights@)[j] >= 1,
            decreases rights.len() - i,
        {
            let w = rights[i].value();
            assert(rights_view(rights@)[i as int] == w);
            i = i + 1;
        }
        ColumnRenderer { padding, left, middle, rights }
    }

    /// The width of the columns other than the middle one.
    fn non_middle(padding: &PaddingWidth, left: &LeftWidth, rights: &Vec<RightWidth>) -> (r: usize)
        requires
            non_middle_width(padding@, left@, rights_view(rights@)) <= usize::MAX,
        ensures
            r == non_middle_width(padding@, left@, rights_view(rights@)),
    {
        let p = padding.value();
        let l = left.value();
        let ghost rv = rights_view(rights@);
        if rights.len() == 0 {
            return l + p;
        }
        proof {
            lemma_sum_prefix(rv, rv.len() as int);
        }
        let mut sum: usize = 0;
        let mut i: usize = 0;
        while i < rights.len()
            invariant
                i <= rights@.len(),
                rv == rights_view(rights@),
                rv.len() > 0,
                sum == sum_widths(rv.take(i as int)),
                l + p + p + sum_widths(rv) + ((rv.len() - 1) as nat) * p <= usize::MAX,
            decreases rights.len() - i,
        {
            proof {
                lemma_sum_prefix(rv, i + 1);
                assert(rv.take(i + 1).drop_last() =~= rv.take(i as int));
            }
            sum = sum + rights[i].value();
            i = i + 1;
        }
        assert(rv.take(i as int) =~= rv);
        let gaps = (rights.len() - 1) * p;
        l + p + p + sum + gaps
    }

    /// The preferred middle width (the requested one, at least the minimum), when the columns then
    /// fit within 95% of `total`.
    pub fn fitted_middle(padding: &PaddingWidth, left: &LeftWidth, middle: &MiddleWidth, rights: &Vec<RightWidth>, total: usize) -> (r: Option<usize>)
        requires
            non_middle_width(padding@, left@, rights_view(rights@)) + middle@ + MINIMUM_MIDDLE_WIDTH <= usize::MAX,
        ensures
            r matches Some(m) ==> fitted_middle_spec(padding@, left@, middle@, rights_view(rights@), total as nat) == Some(m as nat),
            r is None ==> fitted_middle_spec(padding@, left@, middle@, rights_view(rights@), total as nat) is None,
    {
        let non_middle = Self::non_middle(padding, left, rights);
        let m = middle.value();
        let preferred = if m > MINIMUM_MIDDLE_WIDTH { m } else { MINIMUM_MIDDLE_WIDTH };
        let target = ((total as u128) * 95 / 100) as usize;
        if preferred + non_middle <= target {
            Some(preferred)
        } else {
            None
        }
    }

    /// A renderer whose middle width is chosen to suit the total width: the requested middle (at
    /// least the minimum) when everything fits in 95% of the total, else what is left of the
    /// total (at least the minimum), else the minimum.
    pub fn guided(padding: PaddingWidth, left: LeftWidth, middle: MiddleWidth, rights: Vec<RightWidth>, total_width: TotalWidth) -> (r: Self)
        requires
            non_middle_width(padding@, left@, rights_view(rights@)) + middle@ + MINIMUM_MIDDLE_WIDTH <= usize::MAX,
        ensures
            r.wf(),
            r@ == (RendererSpec {
                padding: padding@,
                left: left@,
                middle: guided_middle(padding@, left@, middle@, rights_view(rights@), total_width.0 as nat),
                rights: rights_view(rights@),
            }),
            r@.middle >= MINIMUM_MIDDLE_WIDTH,
    {
        let total = total_width.0;
        let non_middle = Self::non_middle(&padding, &left, &rights);
        let chosen = match Self::fitted_middle(&padding, &left, &middle, &rights, total) {
            Some(m) => m,
            None => {
                if non_middle < total {
                    let rest = total - non_middle;
                    if rest > MINIMUM_MIDDLE_WIDTH { rest } else { MINIMUM_MIDDLE_WIDTH }
                } else {
                    MINIMUM_MIDDLE_WIDTH
                }
            },
        };
        Self::new(padding, left, MiddleWidth(chosen), rights)
    }

    /// Render one row: `left` in the left column, `middle` wrapped to the middle column (narrowed
    /// by `indent`), and `rights` in the right columns of the first line.
    pub fn render(&self, indent: usize, left: &str, middle: &str, rights: &Vec<String>) -> (r: Vec<String>)
        requires
            self.wf(),
            rights@.len() <= self@.rights.len(),
            forall|i: int| 0 <= i < rights@.len() ==> #[trigger] rights@[i]@.len() <= self@.rights[i],
            left@.len() <= self@.left,
            indent <= self@.middle,
            fits_words(middle@, (self@.middle - indent) as nat),
        ensures
            strings_view(r@) == render_spec(self@, indent as nat, left@, middle@, strings_view(rights@)),
    {
        let ghost rs = self@;
        let ghost items = strings_view(rights@);
        let pad = self.padding.value();
        let mut right: Vec<char> = Vec::new();
        if rights.len() > 0 {
            append_spaces(&mut right, pad);
            let mut i: usize = 0;
            while i < rights.len()
                invariant
                    i <= rights@.len(),
                    rights@.len() <= self@.rights.len(),
                    rs == self@,
                    items == strings_view(rights@),
                    pad == rs.padding,
                    rights@.len() > 0,
                    right_text(items, rs.rights, rs.padding) == right@ + right_tail(items, rs.rights, rs.padding, i as nat),
                decreases rights.len() - i,
            {
                let item = chars_of(rights[i].as_str());
                let ghost before = right@;
                assert(items[i as int] == item@);
                if i + 1 < rights.len() {
                    let w = self.rights[i].value();
                    assert(rs.rights[i as int] == w);
                    append_padded(&mut right, &item, w);
                    append_spaces(&mut right, pad);
                    assert(right_tail(items, rs.rights, rs.padding, i as nat)
                        == pad_to(item@, w as nat) + spaces(pad as nat) + right_tail(items, rs.rights, rs.padding, (i + 1) as nat));
                    assert(before + right_tail(items, rs.rights, rs.padding, i as nat)
                        =~= right@ + right_tail(items, rs.rights, rs.padding, (i + 1) as nat));
                } else {
                    append_chars(&mut right, &item);
                    assert(right_tail(items, rs.rights, rs.padding, (i + 1) as nat) =~= Seq::<char>::empty());
                    assert(before + right_tail(items, rs.rights, rs.padding, i as nat)
                        =~= right@ + right_tail(items, rs.rights, rs.padding, (i + 1) as nat));
                }
                i = i + 1;
            }
            assert(right_tail(items, rs.rights, rs.padding, i as nat) =~= Seq::<char>::empty());
            assert(right@ =~= right_text(items, rs.rights, rs.padding));
        } else {
            assert(right@ =~= right_text(items, rs.rights, rs.padding));
        }
        let left_chars = chars_of(left);
        let left_width = self.left.value();
        let middle_width = self.middle.value() - indent;
        let parts = chunk(&chars_of(middle), middle_width);
        let ghost pv = lines_view(parts@);
        let ghost rt = right@;
        let mut out: Vec<String> = Vec::new();
        let mut i: usize = 0;
        while i < parts.len()
            invariant
                i <= parts@.len(),
                pv == lines_view(parts@),
                pv == chunk_spec(middle@, middle_width as nat),
                middle_width == rs.middle - indent,
                rs == self@,
                pad == rs.padding,
                left_width == rs.left,
                left_chars@ == left@,
                rt == right@,
                out@.len() == i,
                forall|j: int| 0 <= j < i ==> #[trigger] strings_view(out@)[j] == render_line(rs, indent as nat, left@, pv, rt, j),
            decreases parts.len() - i,
        {
            let mut line: Vec<char> = Vec::new();
            append_spaces(&mut line, indent);
            if i == 0 {
                append_padded(&mut line, &left_chars, left_width);
                append_spaces(&mut line, pad);
                if right.len() == 0 {
                    append_chars(&mut line, &parts[0]);
                } else {
                    append_padded(&mut line, &parts[0], middle_width);
                    append_chars(&mut line, &right);
                }
            } else {
                append_spaces(&mut line, left_width);
                append_spaces(&mut line, pad);
                append_chars(&mut line, &parts[i]);
            }
            assert(pv[i as int] == parts@[i as int]@);
            assert(line@ =~= render_line(rs, indent as nat, left@, pv, rt, i as int));
            let ghost before = out@;
            out.push(string_of(&line));
            assert forall|j: int| 0 <= j < i + 1 implies #[trigger] strings_view(out@)[j] == render_line(rs, indent as nat, left@, pv, rt, j) by {
                if j < i {
                    assert(strings_view(out@)[j] == strings_view(before)[j]);
                }
            }
            i = i + 1;
        }
        if out.len() == 0 {
            let mut line: Vec<char> = Vec::new();
            append_spaces(&mut line, indent);
            append_padded(&mut line, &left_chars, left_width);
            if right.len() > 0 {
                append_spaces(&mut line, pad);
                append_spaces(&mut line, middle_width);
                append_chars(&mut line, &right);
            }
            out.push(string_of(&line));
            assert(strings_view(out@) =~= render_spec(rs, indent as nat, left@, middle@, items));
        } else {
            assert(strings_view(out@) =~= render_spec(rs, indent as nat, left@, middle@, items));
        }
        out
    }

    /// The middle column's width.
    pub fn middle_width(&self) -> (r: usize)
        ensures
            r == self@.middle,
    {
        self.middle.0
    }
}

} // verus!
