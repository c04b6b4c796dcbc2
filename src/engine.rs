//! The single forward pass that classifies each line and writes a comment
//! block above every decorated declaration.
use vstd::prelude::*;
use crate::shapes::{
    Patterns, class_parts, field_parts, is_call_end_shape, is_class_shape, is_declaration_shape,
    is_decorator_shape, is_field_shape, is_name_char, is_open_call_shape, open_call_parts,
};
use crate::text::{is_white_space, joined_lines, trim_end, trim_start, trimmed, trim_text, views};

verus! {

/// The line that opens a generated comment block.
pub open spec fn guard_start() -> Seq<char> {
    "//AUTOCOMMENT"@
}

/// The line that closes a generated comment block.
pub open spec fn guard_end() -> Seq<char> {
    "//ENDCOMMENT"@
}

/// The structural role of one line under the current state.
#[derive(PartialEq, Eq, Structural, Clone, Copy, Debug)]
pub enum LineRole {
    GuardStart,
    GuardEnd,
    Guarded,
    MultilineDecoratorStart,
    MultilineDecoratorContinuation,
    MultilineDecoratorEnd,
    SingleLineDecorator,
    Declaration,
    Plain,
}

/// The role of a line whose trimmed text is `t`; the rules are tried in order.
pub open spec fn role_of(t: Seq<char>, inside_guard: bool, in_multiline: bool, has_pending: bool) -> LineRole {
    if t == guard_start() {
        LineRole::GuardStart
    } else if t == guard_end() {
        LineRole::GuardEnd
    } else if inside_guard {
        LineRole::Guarded
    } else if in_multiline {
        if is_call_end_shape(t) {
            LineRole::MultilineDecoratorEnd
        } else {
            LineRole::MultilineDecoratorContinuation
        }
    } else if is_open_call_shape(t) {
        LineRole::MultilineDecoratorStart
    } else if is_decorator_shape(t) {
        LineRole::SingleLineDecorator
    } else if is_declaration_shape(t) && has_pending {
        LineRole::Declaration
    } else {
        LineRole::Plain
    }
}

/// Classifies the trimmed line `t`.
pub fn classify(p: &Patterns, t: &String, inside_guard: bool, in_multiline: bool, has_pending: bool) -> (r: LineRole)
    ensures
        r == role_of(t@, inside_guard, in_multiline, has_pending),
{
    if *t == String::from_str("//AUTOCOMMENT") {
        LineRole::GuardStart
    } else if *t == String::from_str("//ENDCOMMENT") {
        LineRole::GuardEnd
    } else if inside_guard {
        LineRole::Guarded
    } else if in_multiline {
        if p.is_call_end(t.as_str()) {
            LineRole::MultilineDecoratorEnd
        } else {
            LineRole::MultilineDecoratorContinuation
        }
    } else if p.is_open_call(t.as_str()) {
        LineRole::MultilineDecoratorStart
    } else if p.is_decorator(t.as_str()) {
        LineRole::SingleLineDecorator
    } else if has_pending && (p.is_field(t.as_str()) || p.is_class(t.as_str())) {
        LineRole::Declaration
    } else {
        LineRole::Plain
    }
}

/// One summary line per decorator: the decorator trimmed, between ` * ` and ` `.
pub open spec fn summary_lines(ds: Seq<Seq<char>>) -> Seq<char>
    decreases ds.len(),
{
    if ds.len() == 0 {
        Seq::empty()
    } else {
        summary_lines(ds.drop_last()) + " * "@ + trimmed(ds.last()) + " \n"@
    }
}

/// The decorators as they stood in the source, each followed by a newline.
pub open spec fn verbatim_lines(ds: Seq<Seq<char>>) -> Seq<char>
    decreases ds.len(),
{
    if ds.len() == 0 {
        Seq::empty()
    } else {
        verbatim_lines(ds.drop_last()) + ds.last() + "\n"@
    }
}

/// The guarded comment that summarises `ds`, then `ds` verbatim, then the declaration.
pub open spec fn comment_block(ds: Seq<Seq<char>>, declaration: Seq<char>) -> Seq<char> {
    "//AUTOCOMMENT\n/**\n * Decorator Usage:\n * ```\n"@ + summary_lines(ds) + " * ```\n */\n//ENDCOMMENT\n"@
        + verbatim_lines(ds) + declaration + "\n"@
}

/// Writes the comment block for the decorators `ds` above `declaration`.
pub fn synthesize(ds: &Vec<String>, declaration: &String) -> (r: String)
    ensures
        r@ == comment_block(views(ds@), declaration@),
{
    let ghost dv = views(ds@);
    let mut out = String::from_str("//AUTOCOMMENT\n/**\n * Decorator Usage:\n * ```\n");
    let ghost head = out@;
    let mut i: usize = 0;
    while i < ds.len()
        invariant
            i <= ds.len(),
            dv == views(ds@),
            out@ == head + summary_lines(dv.take(i as int)),
        decreases ds.len() - i,
    {
        let t = trim_text(ds[i].as_str());
        out.append(" * ");
        out.append(t.as_str());
        out.append(" \n");
        proof {
            assert(dv.take(i + 1).drop_last() =~= dv.take(i as int));
        }
        i = i + 1;
    }
    assert(dv.take(ds.len() as int) =~= dv);
    out.append(" * ```\n */\n//ENDCOMMENT\n");
    let ghost mid = out@;
    let mut j: usize = 0;
    while j < ds.len()
        invariant
            j <= ds.len(),
            dv == views(ds@),
            out@ == mid + verbatim_lines(dv.take(j as int)),
        decreases ds.len() - j,
    {
        out.append(ds[j].as_str());
        out.append("\n");
        proof {
            assert(dv.take(j + 1).drop_last() =~= dv.take(j as int));
        }
        j = j + 1;
    }
    assert(dv.take(ds.len() as int) =~= dv);
    out.append(declaration.as_str());
    out.append("\n");
    assert(out@ =~= comment_block(dv, declaration@));
    out
}

/// The state carried from one line to the next, as mathematical values.
pub struct ScanState {
    pub inside_guard: bool,
    pub in_multiline: bool,
    pub multiline_text: Seq<char>,
    pub pending: Seq<Seq<char>>,
}

pub open spec fn initial_state() -> ScanState {
    ScanState {
        inside_guard: false,
        in_multiline: false,
        multiline_text: Seq::empty(),
        pending: Seq::empty(),
    }
}

/// The next state, and the text written, after the line `raw`.
pub open spec fn step(st: ScanState, raw: Seq<char>) -> (ScanState, Seq<char>) {
    let t = trimmed(raw);
    match role_of(t, st.inside_guard, st.in_multiline, st.pending.len() > 0) {
        LineRole::GuardStart => (ScanState { inside_guard: true, ..st }, Seq::empty()),
        LineRole::GuardEnd => (ScanState { inside_guard: false, ..st }, Seq::empty()),
        LineRole::Guarded => (st, Seq::empty()),
        LineRole::MultilineDecoratorStart => (
            ScanState { in_multiline: true, multiline_text: raw + "\n"@, ..st },
            Seq::empty(),
        ),
        LineRole::MultilineDecoratorContinuation => (
            ScanState { multiline_text: st.multiline_text + raw + "\n"@, ..st },
            Seq::empty(),
        ),
        LineRole::MultilineDecoratorEnd => (
            ScanState {
                in_multiline: false,
                multiline_text: Seq::empty(),
                pending: st.pending.push(st.multiline_text + raw),
                ..st
            },
            Seq::empty(),
        ),
        LineRole::SingleLineDecorator => (
            ScanState { pending: st.pending.push(raw), ..st },
            Seq::empty(),
        ),
        LineRole::Declaration => (
            ScanState { pending: Seq::empty(), ..st },
            comment_block(st.pending, raw),
        ),
        LineRole::Plain => (st, raw + "\n"@),
    }
}

/// The state after the lines, starting from `st`, and the text written for them.
pub open spec fn scan_from(st: ScanState, lines: Seq<Seq<char>>) -> (ScanState, Seq<char>)
    decreases lines.len(),
{
    if lines.len() == 0 {
        (st, Seq::empty())
    } else {
        let (mid, out) = scan_from(st, lines.drop_last());
        let (next, written) = step(mid, lines.last());
        (next, out + written)
    }
}

/// The state after the lines of a file, and the text written for them.
pub open spec fn scan(lines: Seq<Seq<char>>) -> (ScanState, Seq<char>) {
    scan_from(initial_state(), lines)
}

/// The text that the pass writes for the lines.
pub open spec fn annotated(lines: Seq<Seq<char>>) -> Seq<char> {
    scan(lines).1
}

/// The state of one file's pass: the mode flags, the text of an unfinished
/// multi-line decorator, and the decorators waiting for a declaration.
pub struct TransformState {
    inside_guard: bool,
    in_multiline: bool,
    multiline_buffer: String,
    pending: Vec<String>,
}

impl View for TransformState {
    type V = ScanState;

    closed spec fn view(&self) -> ScanState {
        ScanState {
            inside_guard: self.inside_guard,
            in_multiline: self.in_multiline,
            multiline_text: self.multiline_buffer@,
            pending: views(self.pending@),
        }
    }
}

impl TransformState {
    pub fn new() -> (r: TransformState)
        ensures
            r@ == initial_state(),
    {
        let r = TransformState {
            inside_guard: false,
            in_multiline: false,
            multiline_buffer: String::new(),
            pending: Vec::new(),
        };
        assert(r@.pending =~= Seq::<Seq<char>>::empty());
        r
    }

    /// Takes the line `raw`, and appends to `out` what is written for it.
    pub fn step(&mut self, p: &Patterns, raw: &String, out: &mut String)
        ensures
            final(self)@ == step(old(self)@, raw@).0,
            final(out)@ == old(out)@ + step(old(self)@, raw@).1,
    {
        let t = trim_text(raw.as_str());
        let has_pending = self.pending.len() > 0;
        let role = classify(p, &t, self.inside_guard, self.in_multiline, has_pending);
        match role {
            LineRole::GuardStart => {
                self.inside_guard = true;
            },
            LineRole::GuardEnd => {
                self.inside_guard = false;
            },
            LineRole::Guarded => {},
            LineRole::MultilineDecoratorStart => {
                self.in_multiline = true;
                self.multiline_buffer = raw.clone();
                self.multiline_buffer.append("\n");
            },
            LineRole::MultilineDecoratorContinuation => {
                self.multiline_buffer.append(raw.as_str());
                self.multiline_buffer.append("\n");
            },
            LineRole::MultilineDecoratorEnd => {
                let mut d = self.multiline_buffer.clone();
                d.append(raw.as_str());
                let ghost before = self.pending@;
                self.pending.push(d);
                assert(views(self.pending@) =~= views(before).push(d@));
                self.in_multiline = false;
                self.multiline_buffer = String::new();
            },
            LineRole::SingleLineDecorator => {
                let ghost before = self.pending@;
                self.pending.push(raw.clone());
                assert(views(self.pending@) =~= views(before).push(raw@));
            },
            LineRole::Declaration => {
                let block = synthesize(&self.pending, raw);
                out.append(block.as_str());
                self.pending = Vec::new();
                assert(views(self.pending@) =~= Seq::<Seq<char>>::empty());
            },
            LineRole::Plain => {
                out.append(raw.as_str());
                out.append("\n");
            },
        }
        assert(final(self)@ == step(old(self)@, raw@).0);
    }
}

/// Runs the pass over the lines of one file and returns the text it writes.
pub fn annotate(p: &Patterns, lines: &Vec<String>) -> (r: String)
    ensures
        r@ == annotated(views(lines@)),
{
    let ghost lv = views(lines@);
    let mut st = TransformState::new();
    let mut out = String::new();
    let mut i: usize = 0;
    while i < lines.len()
        invariant
            i <= lines.len(),
            lv == views(lines@),
            st@ == scan(lv.take(i as int)).0,
            out@ == scan(lv.take(i as int)).1,
        decreases lines.len() - i,
    {
        st.step(p, &lines[i], &mut out);
        proof {
            assert(lv.take(i + 1).drop_last() =~= lv.take(i as int));
            assert(out@ =~= scan(lv.take(i + 1)).1);
        }
        i = i + 1;
    }
    assert(lv.take(lines.len() as int) =~= lv);
    out
}

proof fn lemma_field_first_char(t: Seq<char>)
    requires
        is_field_shape(t),
    ensures
        t.len() > 0,
        t[0] == 'p' || t[0] == 'r' || crate::text::is_white_space(t[0]) || is_name_char(t[0]),
{
    let (m, a, b, c, d) = choose|m: int, a: int, b: int, c: int, d: int|
        field_parts(t, m, a, b, c, d);
    if m > 0 {
        assert(t[0] == t.take(m)[0]);
        assert(seq!['p', 'u', 'b', 'l', 'i', 'c'][0] == 'p');
        assert(seq!['p', 'r', 'i', 'v', 'a', 't', 'e'][0] == 'p');
        assert(seq!['r', 'e', 'a', 'd', 'o', 'n', 'l', 'y'][0] == 'r');
    } else if a > 0 {
        assert(crate::text::is_white_space(t[0]));
    } else {
        assert(is_name_char(t[0]));
    }
}

proof fn lemma_class_first_char(t: Seq<char>)
    requires
        is_class_shape(t),
    ensures
        t.len() > 0,
        t[0] == 'e' || t[0] == 'c' || crate::text::is_white_space(t[0]),
{
    let (m, a, b) = choose|m: int, a: int, b: int| class_parts(t, m, a, b);
    if m > 0 {
        assert(t[0] == t.take(6)[0]);
        assert(seq!['e', 'x', 'p', 'o', 'r', 't'][0] == 'e');
    } else if a > 0 {
        assert(crate::text::is_white_space(t[0]));
    } else {
        assert(t[0] == t.subrange(a, a + 5)[0]);
        assert(seq!['c', 'l', 'a', 's', 's'][0] == 'c');
    }
}

/// The first character of a declaration is neither `@` nor `/`.
proof fn lemma_declaration_first_char(t: Seq<char>)
    requires
        is_declaration_shape(t),
    ensures
        t.len() > 0,
        t[0] != '@',
        t[0] != '/',
{
    if is_field_shape(t) {
        lemma_field_first_char(t);
    } else {
        lemma_class_first_char(t);
    }
}

proof fn lemma_guard_markers()
    ensures
        guard_start().len() == 13,
        guard_start()[0] == '/',
        guard_start().last() == 'T',
        guard_end().len() == 12,
        guard_end()[0] == '/',
        guard_end().last() == 'T',
{
    reveal_strlit("//AUTOCOMMENT");
    reveal_strlit("//ENDCOMMENT");
}

/// A declaration reached with no decorator waiting, outside a guarded region
/// and outside a multi-line decorator, is written unchanged and gets no
/// comment block.
pub proof fn lemma_undecorated_declaration_unchanged(st: ScanState, raw: Seq<char>)
    requires
        !st.inside_guard,
        !st.in_multiline,
        st.pending.len() == 0,
        is_declaration_shape(trimmed(raw)),
    ensures
        step(st, raw) == (st, raw + "\n"@),
{
    let t = trimmed(raw);
    lemma_declaration_first_char(t);
    lemma_guard_markers();
    assert(t != guard_start());
    assert(t != guard_end());
    if is_open_call_shape(t) {
        let k = choose|k: int| open_call_parts(t, k);
    }
    assert(role_of(t, false, false, false) == LineRole::Plain);
}

/// Running the lines `a + b` is running `a`, then `b` from where `a` left off.
pub proof fn lemma_scan_concat(st: ScanState, a: Seq<Seq<char>>, b: Seq<Seq<char>>)
    ensures
        scan_from(st, a + b) == ({
            let (s1, o1) = scan_from(st, a);
            let (s2, o2) = scan_from(s1, b);
            (s2, o1 + o2)
        }),
    decreases b.len(),
{
    if b.len() == 0 {
        assert(a + b =~= a);
    } else {
        assert((a + b).drop_last() =~= a + b.drop_last());
        lemma_scan_concat(st, a, b.drop_last());
        let (s1, o1) = scan_from(st, a);
        let (s2, o2) = scan_from(s1, b.drop_last());
        let (s3, o3) = step(s2, b.last());
        assert(o1 + o2 + o3 =~= o1 + (o2 + o3));
    }
}

/// The continuation lines of a multi-line decorator are added to its text.
proof fn lemma_continuations(st: ScanState, middle: Seq<Seq<char>>)
    requires
        !st.inside_guard,
        st.in_multiline,
        forall|i: int|
            0 <= i < middle.len() ==> !is_call_end_shape(trimmed(#[trigger] middle[i])) && trimmed(
                middle[i],
            ) != guard_start() && trimmed(middle[i]) != guard_end(),
    ensures
        scan_from(st, middle) == (
            ScanState { multiline_text: st.multiline_text + joined_lines(middle), ..st },
            Seq::<char>::empty(),
        ),
    decreases middle.len(),
{
    if middle.len() == 0 {
        assert(st.multiline_text + joined_lines(middle) =~= st.multiline_text);
    } else {
        lemma_continuations(st, middle.drop_last());
        let prev = st.multiline_text + joined_lines(middle.drop_last());
        assert(prev + middle.last() + "\n"@ =~= st.multiline_text + joined_lines(middle));
        assert(Seq::<char>::empty() + Seq::<char>::empty() =~= Seq::<char>::empty());
    }
}

/// A decorator written over several lines, from `@name(` through lines that
/// do not end it to a line that ends with `)`, is gathered as one decorator
/// whose text is those lines joined by newlines; no text is written for it
/// until its declaration, where it gives one summary line and its lines
/// verbatim.
pub proof fn lemma_multiline_decorator_joined(
    st: ScanState,
    first: Seq<char>,
    middle: Seq<Seq<char>>,
    last: Seq<char>,
)
    requires
        !st.inside_guard,
        !st.in_multiline,
        is_open_call_shape(trimmed(first)),
        forall|i: int|
            0 <= i < middle.len() ==> !is_call_end_shape(trimmed(#[trigger] middle[i])) && trimmed(
                middle[i],
            ) != guard_start() && trimmed(middle[i]) != guard_end(),
        is_call_end_shape(trimmed(last)),
    ensures
        ({
            let unit = joined_lines(seq![first] + middle) + last;
            &&& scan_from(st, seq![first] + middle + seq![last]) == (
                ScanState {
                    in_multiline: false,
                    multiline_text: Seq::empty(),
                    pending: st.pending.push(unit),
                    ..st
                },
                Seq::<char>::empty(),
            )
            &&& summary_lines(seq![unit]) == " * "@ + trimmed(unit) + " \n"@
            &&& verbatim_lines(seq![unit]) == joined_lines(seq![first] + middle + seq![last])
        }),
{
    lemma_guard_markers();
    let tf = trimmed(first);
    let k = choose|k: int| open_call_parts(tf, k);
    assert(tf != guard_start());
    assert(tf != guard_end());
    let s1 = ScanState { in_multiline: true, multiline_text: first + "\n"@, ..st };
    assert(role_of(tf, st.inside_guard, st.in_multiline, st.pending.len() > 0)
        == LineRole::MultilineDecoratorStart);
    assert(step(st, first) == (s1, Seq::<char>::empty()));
    assert(seq![first].drop_last() =~= Seq::<Seq<char>>::empty());
    assert(seq![first].last() == first);
    assert(scan_from(st, Seq::<Seq<char>>::empty()) == (st, Seq::<char>::empty()));
    assert(Seq::<char>::empty() + Seq::<char>::empty() =~= Seq::<char>::empty());
    assert(scan_from(st, seq![first]) == (s1, Seq::<char>::empty()));
    lemma_continuations(s1, middle);
    lemma_scan_concat(st, seq![first], middle);
    assert(joined_lines(Seq::<Seq<char>>::empty()) == Seq::<char>::empty());
    assert(joined_lines(seq![first]) =~= first + "\n"@);
    lemma_joined_concat(seq![first], middle);
    let s2 = ScanState { multiline_text: joined_lines(seq![first] + middle), ..s1 };
    assert(scan_from(st, seq![first] + middle) == (s2, Seq::<char>::empty()));
    let tl = trimmed(last);
    assert(tl != guard_start());
    assert(tl != guard_end());
    let unit = joined_lines(seq![first] + middle) + last;
    assert(seq![first] + middle + seq![last] =~= (seq![first] + middle) + seq![last]);
    lemma_scan_concat(st, seq![first] + middle, seq![last]);
    assert(seq![last].drop_last() =~= Seq::<Seq<char>>::empty());
    assert((seq![first] + middle + seq![last]).drop_last() =~= seq![first] + middle);
    assert(seq![unit].drop_last() =~= Seq::<Seq<char>>::empty());
    assert(Seq::<char>::empty() + Seq::<char>::empty() + Seq::<char>::empty() =~= Seq::<char>::empty());
    assert(seq![unit].last() == unit);
    assert(summary_lines(Seq::<Seq<char>>::empty()) == Seq::<char>::empty());
    assert(verbatim_lines(Seq::<Seq<char>>::empty()) == Seq::<char>::empty());
    assert((seq![first] + middle + seq![last]).last() == last);
    assert(summary_lines(seq![unit]) =~= " * "@ + trimmed(unit) + " \n"@);
    assert(verbatim_lines(seq![unit]) =~= joined_lines(seq![first] + middle + seq![last]));
}

/// Joining `a + b` is joining `a`, then `b`.
pub proof fn lemma_joined_concat(a: Seq<Seq<char>>, b: Seq<Seq<char>>)
    ensures
        joined_lines(a + b) == joined_lines(a) + joined_lines(b),
    decreases b.len(),
{
    if b.len() == 0 {
        assert(a + b =~= a);
        assert(joined_lines(a) + joined_lines(b) =~= joined_lines(a));
    } else {
        assert((a + b).drop_last() =~= a + b.drop_last());
        lemma_joined_concat(a, b.drop_last());
        assert(joined_lines(a + b) =~= joined_lines(a) + joined_lines(b));
    }
}

proof fn lemma_trim_keeps(s: Seq<char>, i: int)
    requires
        0 <= i < s.len(),
        !is_white_space(s[i]),
    ensures
        trim_start(s).contains(s[i]),
        trimmed(s).contains(s[i]),
    decreases s.len(),
{
    if is_white_space(s[0]) {
        assert(s.drop_first()[i - 1] == s[i]);
        lemma_trim_keeps(s.drop_first(), i - 1);
    } else {
        assert(trim_start(s)[i] == s[i]);
    }
    let t = trim_start(s);
    let k = choose|k: int| 0 <= k < t.len() && t[k] == s[i];
    lemma_trim_keeps_end(t, k);
}

proof fn lemma_trim_keeps_end(s: Seq<char>, i: int)
    requires
        0 <= i < s.len(),
        !is_white_space(s[i]),
    ensures
        trim_end(s).contains(s[i]),
    decreases s.len(),
{
    if is_white_space(s.last()) {
        assert(s.drop_last()[i] == s[i]);
        lemma_trim_keeps_end(s.drop_last(), i);
    } else {
        assert(trim_end(s)[i] == s[i]);
    }
}

/// A line with a `*` in it is no guard marker, whatever whitespace is around it.
proof fn lemma_star_line_is_no_marker(s: Seq<char>, i: int)
    requires
        0 <= i < s.len(),
        s[i] == '*',
    ensures
        trimmed(s) != guard_start(),
        trimmed(s) != guard_end(),
{
    reveal_strlit("//AUTOCOMMENT");
    reveal_strlit("//ENDCOMMENT");
    lemma_trim_keeps(s, i);
    if trimmed(s) == guard_start() {
        let k = choose|k: int| 0 <= k < guard_start().len() && guard_start()[k] == '*';
    }
    if trimmed(s) == guard_end() {
        let k = choose|k: int| 0 <= k < guard_end().len() && guard_end()[k] == '*';
    }
}

proof fn lemma_markers_trimmed()
    ensures
        trimmed(guard_start()) == guard_start(),
        trimmed(guard_end()) == guard_end(),
        guard_start() != guard_end(),
{
    lemma_guard_markers();
    assert(!is_white_space('/'));
    assert(!is_white_space('T'));
    assert(trim_start(guard_start()) == guard_start());
    assert(trim_start(guard_end()) == guard_end());
}

/// Lines inside a guarded region write nothing and change nothing.
proof fn lemma_guarded_lines(st: ScanState, inner: Seq<Seq<char>>)
    requires
        st.inside_guard,
        forall|i: int|
            0 <= i < inner.len() ==> trimmed(#[trigger] inner[i]) != guard_start() && trimmed(
                inner[i],
            ) != guard_end(),
    ensures
        scan_from(st, inner) == (st, Seq::<char>::empty()),
    decreases inner.len(),
{
    if inner.len() > 0 {
        lemma_guarded_lines(st, inner.drop_last());
        assert(Seq::<char>::empty() + Seq::<char>::empty() =~= Seq::<char>::empty());
    }
}

/// One-line decorators outside any region are gathered in order and write nothing.
proof fn lemma_decorator_lines(st: ScanState, ds: Seq<Seq<char>>)
    requires
        !st.inside_guard,
        !st.in_multiline,
        forall|i: int|
            0 <= i < ds.len() ==> is_decorator_shape(trimmed(#[trigger] ds[i]))
                && !is_open_call_shape(trimmed(ds[i])),
    ensures
        scan_from(st, ds) == (ScanState { pending: st.pending + ds, ..st }, Seq::<char>::empty()),
    decreases ds.len(),
{
    if ds.len() == 0 {
        assert(st.pending + ds =~= st.pending);
    } else {
        assert forall|i: int| 0 <= i < ds.drop_last().len() implies is_decorator_shape(
            trimmed(#[trigger] ds.drop_last()[i]),
        ) && !is_open_call_shape(trimmed(ds.drop_last()[i])) by {
            assert(ds.drop_last()[i] == ds[i]);
        }
        lemma_decorator_lines(st, ds.drop_last());
        lemma_guard_markers();
        let t = trimmed(ds.last());
        assert(is_decorator_shape(trimmed(ds[ds.len() - 1])));
        assert(t[0] == '@');
        let s1 = ScanState { pending: st.pending + ds.drop_last(), ..st };
        assert(role_of(t, s1.inside_guard, s1.in_multiline, s1.pending.len() > 0)
            == LineRole::SingleLineDecorator);
        assert(t != guard_start());
        assert(t != guard_end());
        assert((st.pending + ds.drop_last()).push(ds.last()) =~= st.pending + ds);
        let r = step(s1, ds.last());
        assert(r.0 == ScanState { pending: st.pending + ds, ..st });
        assert(r.1 == Seq::<char>::empty());
        assert(scan_from(st, ds.drop_last()) == (s1, Seq::<char>::empty()));
        assert(Seq::<char>::empty() + Seq::<char>::empty() =~= Seq::<char>::empty());
    }
}

/// The summary lines of `ds`, one line each, without their newlines.
pub open spec fn summary_line_seq(ds: Seq<Seq<char>>) -> Seq<Seq<char>> {
    ds.map_values(|d: Seq<char>| " * "@ + trimmed(d) + " "@)
}

/// The lines of the comment block for `ds` and `declaration`, for decorators
/// that stand on one line each.
pub open spec fn block_lines(ds: Seq<Seq<char>>, declaration: Seq<char>) -> Seq<Seq<char>> {
    seq![guard_start(), "/**"@, " * Decorator Usage:"@, " * ```"@] + summary_line_seq(ds) + seq![
        " * ```"@,
        " */"@,
        guard_end(),
    ] + ds + seq![declaration]
}

proof fn lemma_summary_joined(ds: Seq<Seq<char>>)
    ensures
        joined_lines(summary_line_seq(ds)) == summary_lines(ds),
        verbatim_lines(ds) == joined_lines(ds),
    decreases ds.len(),
{
    if ds.len() > 0 {
        lemma_summary_joined(ds.drop_last());
        reveal_strlit(" ");
        reveal_strlit("\n");
        reveal_strlit(" \n");
        assert(summary_line_seq(ds).drop_last() =~= summary_line_seq(ds.drop_last()));
        assert(summary_line_seq(ds).last() == " * "@ + trimmed(ds.last()) + " "@);
        assert(joined_lines(summary_line_seq(ds)) =~= summary_lines(ds));
    }
}

proof fn lemma_joined_one(l: Seq<char>)
    ensures
        joined_lines(seq![l]) == l + "\n"@,
{
    assert(seq![l].drop_last() =~= Seq::<Seq<char>>::empty());
    assert(seq![l].last() == l);
    assert(joined_lines(Seq::<Seq<char>>::empty()) == Seq::<char>::empty());
    assert(Seq::<char>::empty() + l + "\n"@ =~= l + "\n"@);
}

proof fn lemma_joined_head()
    ensures
        joined_lines(seq![guard_start(), "/**"@, " * Decorator Usage:"@, " * ```"@])
            == "//AUTOCOMMENT\n/**\n * Decorator Usage:\n * ```\n"@,
{
    let (a, b, c, d) = (guard_start(), "/**"@, " * Decorator Usage:"@, " * ```"@);
    lemma_joined_one(a);
    lemma_joined_one(b);
    lemma_joined_one(c);
    lemma_joined_one(d);
    lemma_joined_concat(seq![a], seq![b]);
    lemma_joined_concat(seq![a] + seq![b], seq![c]);
    lemma_joined_concat(seq![a] + seq![b] + seq![c], seq![d]);
    assert(seq![a] + seq![b] + seq![c] + seq![d] =~= seq![a, b, c, d]);
    reveal_strlit("//AUTOCOMMENT\n/**\n * Decorator Usage:\n * ```\n");
    reveal_strlit("//AUTOCOMMENT");
    reveal_strlit("/**");
    reveal_strlit(" * Decorator Usage:");
    reveal_strlit(" * ```");
    reveal_strlit("\n");
    assert(a + "\n"@ + (b + "\n"@) + (c + "\n"@) + (d + "\n"@)
        =~= "//AUTOCOMMENT\n/**\n * Decorator Usage:\n * ```\n"@);
}

proof fn lemma_joined_tail()
    ensures
        joined_lines(seq![" * ```"@, " */"@, guard_end()]) == " * ```\n */\n//ENDCOMMENT\n"@,
{
    let (a, b, c) = (" * ```"@, " */"@, guard_end());
    lemma_joined_one(a);
    lemma_joined_one(b);
    lemma_joined_one(c);
    lemma_joined_concat(seq![a], seq![b]);
    lemma_joined_concat(seq![a] + seq![b], seq![c]);
    assert(seq![a] + seq![b] + seq![c] =~= seq![a, b, c]);
    reveal_strlit(" * ```\n */\n//ENDCOMMENT\n");
    reveal_strlit("//ENDCOMMENT");
    reveal_strlit(" */");
    reveal_strlit(" * ```");
    reveal_strlit("\n");
    assert(a + "\n"@ + (b + "\n"@) + (c + "\n"@) =~= " * ```\n */\n//ENDCOMMENT\n"@);
}

/// The comment block read back line by line: its lines, joined, are the block.
pub proof fn lemma_block_lines_joined(ds: Seq<Seq<char>>, declaration: Seq<char>)
    ensures
        joined_lines(block_lines(ds, declaration)) == comment_block(ds, declaration),
{
    let head = seq![guard_start(), "/**"@, " * Decorator Usage:"@, " * ```"@];
    let tail = seq![" * ```"@, " */"@, guard_end()];
    lemma_joined_head();
    lemma_joined_tail();
    lemma_joined_one(declaration);
    lemma_summary_joined(ds);
    lemma_joined_concat(head, summary_line_seq(ds));
    lemma_joined_concat(head + summary_line_seq(ds), tail);
    lemma_joined_concat(head + summary_line_seq(ds) + tail, ds);
    lemma_joined_concat(head + summary_line_seq(ds) + tail + ds, seq![declaration]);
    assert(joined_lines(block_lines(ds, declaration)) =~= comment_block(ds, declaration));
}

proof fn lemma_block_inner_lines(ds: Seq<Seq<char>>)
    ensures
        ({
            let inner = seq!["/**"@, " * Decorator Usage:"@, " * ```"@] + summary_line_seq(ds)
                + seq![" * ```"@, " */"@];
            forall|i: int|
                0 <= i < inner.len() ==> trimmed(#[trigger] inner[i]) != guard_start() && trimmed(
                    inner[i],
                ) != guard_end()
        }),
{
    reveal_strlit("/**");
    reveal_strlit(" * Decorator Usage:");
    reveal_strlit(" * ```");
    reveal_strlit(" */");
    reveal_strlit(" * ");
    let inner = seq!["/**"@, " * Decorator Usage:"@, " * ```"@] + summary_line_seq(ds) + seq![
        " * ```"@,
        " */"@,
    ];
    assert forall|i: int| 0 <= i < inner.len() implies trimmed(#[trigger] inner[i])
        != guard_start() && trimmed(inner[i]) != guard_end() by {
        if 3 <= i < 3 + ds.len() {
            assert(inner[i] == " * "@ + trimmed(ds[i - 3]) + " "@);
        }
        assert(inner[i].len() > 1 && inner[i][1] == '*');
        lemma_star_line_is_no_marker(inner[i], 1);
    }
}

/// Running the pass again over the lines of a comment block that it wrote,
/// for decorators that stand on one line each, writes that same block again
/// and leaves the state as it was: a second run adds no second block for the
/// declaration, because the generated comment sits in a guarded region.
pub proof fn lemma_rescan_block(st: ScanState, ds: Seq<Seq<char>>, declaration: Seq<char>)
    requires
        !st.inside_guard,
        !st.in_multiline,
        st.pending.len() == 0,
        ds.len() > 0,
        forall|i: int|
            0 <= i < ds.len() ==> is_decorator_shape(trimmed(#[trigger] ds[i]))
                && !is_open_call_shape(trimmed(ds[i])),
        is_declaration_shape(trimmed(declaration)),
    ensures
        joined_lines(block_lines(ds, declaration)) == comment_block(ds, declaration),
        scan_from(st, block_lines(ds, declaration)) == (st, comment_block(ds, declaration)),
{
    lemma_block_lines_joined(ds, declaration);
    lemma_markers_trimmed();
    lemma_guard_markers();
    let g = seq![guard_start()];
    let inner = seq!["/**"@, " * Decorator Usage:"@, " * ```"@] + summary_line_seq(ds) + seq![
        " * ```"@,
        " */"@,
    ];
    let e = seq![guard_end()];
    let d = seq![declaration];
    assert(block_lines(ds, declaration) =~= g + inner + e + ds + d);
    let empty = Seq::<char>::empty();
    assert(empty + empty =~= empty);
    // the opening marker
    let sg = ScanState { inside_guard: true, ..st };
    assert(g.drop_last() =~= Seq::<Seq<char>>::empty());
    assert(g.last() == guard_start());
    assert(scan_from(st, Seq::<Seq<char>>::empty()) == (st, empty));
    assert(role_of(trimmed(guard_start()), false, false, false) == LineRole::GuardStart);
    assert(step(st, guard_start()) == (sg, empty));
    assert(scan_from(st, g) == (sg, empty));
    // the generated comment
    lemma_block_inner_lines(ds);
    lemma_guarded_lines(sg, inner);
    lemma_scan_concat(st, g, inner);
    // the closing marker
    assert(e.drop_last() =~= Seq::<Seq<char>>::empty());
    assert(e.last() == guard_end());
    assert(scan_from(sg, Seq::<Seq<char>>::empty()) == (sg, empty));
    assert(role_of(trimmed(guard_end()), true, false, false) == LineRole::GuardEnd);
    assert(step(sg, guard_end()) == (st, empty));
    assert(scan_from(sg, e) == (st, empty));
    lemma_scan_concat(st, g + inner, e);
    // the decorators
    lemma_decorator_lines(st, ds);
    lemma_scan_concat(st, g + inner + e, ds);
    let sd = ScanState { pending: st.pending + ds, ..st };
    assert(st.pending + ds =~= ds);
    // the declaration
    let t = trimmed(declaration);
    lemma_declaration_first_char(t);
    assert(t != guard_start());
    assert(t != guard_end());
    if is_open_call_shape(t) {
        let k = choose|k: int| open_call_parts(t, k);
    }
    assert(role_of(t, false, false, true) == LineRole::Declaration);
    assert(st.pending =~= Seq::<Seq<char>>::empty());
    assert(step(sd, declaration) == (st, comment_block(ds, declaration)));
    assert(d.drop_last() =~= Seq::<Seq<char>>::empty());
    assert(empty + comment_block(ds, declaration) =~= comment_block(ds, declaration));
    assert(d.last() == declaration);
    assert(scan_from(sd, Seq::<Seq<char>>::empty()) == (sd, empty));
    assert(scan_from(sd, d) == (st, comment_block(ds, declaration)));
    lemma_scan_concat(st, g + inner + e + ds, d);
}

} // verus!
