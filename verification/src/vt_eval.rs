//! The evaluation of terminal emulators: a captured stream replayed into each
//! candidate, and what it reports of damage, rendering and resizing.
use vstd::prelude::*;
use vstd::string::*;

use alacritty_terminal::event::VoidListener;
use alacritty_terminal::index::{Column, Line};
use alacritty_terminal::term::test::TermSize;
use alacritty_terminal::term::{Config, Term, TermDamage};
use alacritty_terminal::vte::ansi::Processor;

use crate::capture::{views, CaptureChunk, ChunkView};
use crate::double::{push_quotient, quotient_text};
use crate::record::all_bytes;
use crate::report::texts;
use crate::text::{
    all_space, byte_len, chars_of, decimal, is_blank, push_u128, push_usize,
};
use crate::total::{lemma_sum_same, sum};
use crate::utf8::{carried_after, decoded_after, may_continue, Reassembler};

verus! {

/// The columns that a replay is resized to.
pub const RESIZED_COLS: u16 = 120;

/// The rows that a replay is resized to.
pub const RESIZED_ROWS: u16 = 40;

/// What one candidate reported after the whole capture.
#[derive(Debug)]
pub struct VtRun {
    pub library: &'static str,
    /// The time that feeding every chunk took, without the recorded pacing.
    pub feed_micros: u128,
    /// Damaged-line events across the replay.
    pub damage_events: usize,
    pub damage_granularity: &'static str,
    /// Lines that are not blank in the final viewport.
    pub non_blank_lines: usize,
    /// Lines that are not blank after the resize.
    pub non_blank_lines_after_resize: usize,
    pub resize_behavior: String,
}

/// `avt::Vt`: a headless terminal of the crate `avt`.
#[verifier::external_type_specification]
#[verifier::external_body]
pub struct ExVt(avt::Vt);

/// How many lines `avt::Vt::feed_str` reports as changed by the last of the
/// texts fed to a terminal of that size.
pub uninterp spec fn vt_changes(cols: nat, rows: nat, fed: Seq<Seq<char>>) -> nat;

/// How many lines `avt::Vt::resize` reports as changed, on a terminal of that
/// size after those texts.
pub uninterp spec fn vt_resize_changes(
    cols: nat,
    rows: nat,
    fed: Seq<Seq<char>>,
    to_cols: nat,
    to_rows: nat,
) -> nat;

/// The lines that `avt::Vt::text` gives, of a terminal of that size after those
/// texts and, at the end, a resize where there was one.
pub uninterp spec fn vt_text(
    cols: nat,
    rows: nat,
    fed: Seq<Seq<char>>,
    resized: Option<(nat, nat)>,
) -> Seq<Seq<char>>;

/// A terminal together with what was done to it.
pub struct Screen {
    vt: avt::Vt,
    cols: u16,
    rows: u16,
    fed: Ghost<Seq<Seq<char>>>,
    resized: Ghost<Option<(nat, nat)>>,
}

impl Screen {
    /// The columns that it was made with.
    pub closed spec fn width(&self) -> nat {
        self.cols as nat
    }

    /// The rows that it was made with.
    pub closed spec fn height(&self) -> nat {
        self.rows as nat
    }

    /// The texts that it was fed, in order.
    pub closed spec fn history(&self) -> Seq<Seq<char>> {
        self.fed@
    }

    /// The size that it was resized to at the end, if it was.
    pub closed spec fn resize_done(&self) -> Option<(nat, nat)> {
        self.resized@
    }

    /// `avt::Vt::builder` with a size, built: a terminal that nothing was done
    /// to. A terminal without rows cannot be built, and one of a single column
    /// has no place for a wide character.
    #[verifier::external_body]
    pub(crate) fn new(cols: u16, rows: u16) -> (s: Self)
        requires
            cols >= 2,
            rows >= 1,
        ensures
            s.width() == cols,
            s.height() == rows,
            s.history() == Seq::<Seq<char>>::empty(),
            s.resize_done() is None,
    {
        let vt = avt::Vt::builder().size(cols as usize, rows as usize).build();
        Screen { vt, cols, rows, fed: Ghost(Seq::empty()), resized: Ghost(None) }
    }

    /// `avt::Vt::feed_str`: how many lines it reports as changed. It reports each
    /// line of the screen at most once.
    #[verifier::external_body]
    pub(crate) fn feed(&mut self, text: &str) -> (changed: usize)
        requires
            old(self).resize_done() is None,
        ensures
            final(self).width() == old(self).width(),
            final(self).height() == old(self).height(),
            final(self).history() == old(self).history().push(text@),
            final(self).resize_done() is None,
            changed == vt_changes(old(self).width(), old(self).height(), final(self).history()),
            changed <= old(self).height(),
    {
        self.vt.feed_str(text).lines.len()
    }

    /// `avt::Vt::resize`: how many lines it reports as changed.
    #[verifier::external_body]
    pub(crate) fn resize(&mut self, cols: u16, rows: u16) -> (changed: usize)
        requires
            old(self).resize_done() is None,
            cols >= 2,
            rows >= 1,
        ensures
            final(self).width() == old(self).width(),
            final(self).height() == old(self).height(),
            final(self).history() == old(self).history(),
            final(self).resize_done() == Some((cols as nat, rows as nat)),
            changed == vt_resize_changes(
                old(self).width(),
                old(self).height(),
                old(self).history(),
                cols as nat,
                rows as nat,
            ),
    {
        self.vt.resize(cols as usize, rows as usize).lines.len()
    }

    /// `avt::Vt::text`: the lines of the terminal's buffer.
    #[verifier::external_body]
    pub(crate) fn text(&self) -> (lines: Vec<String>)
        ensures
            texts(lines@) == vt_text(
                self.width(),
                self.height(),
                self.history(),
                self.resize_done(),
            ),
    {
        self.vt.text()
    }
}

/// How many of a list of lines are not blank.
pub open spec fn non_blank(lines: Seq<Seq<char>>) -> nat
    decreases lines.len(),
{
    if lines.len() == 0 {
        0
    } else {
        non_blank(lines.drop_last()) + if all_space(lines.last()) {
            0nat
        } else {
            1nat
        }
    }
}

fn count_non_blank(lines: &Vec<String>) -> (n: usize)
    ensures
        n == non_blank(texts(lines@)),
{
    let ghost all = texts(lines@);
    let mut n: usize = 0;
    let mut i: usize = 0;
    assert(all.take(0) =~= Seq::empty());
    while i < lines.len()
        invariant
            all == texts(lines@),
            i <= lines@.len(),
            n <= i,
            n == non_blank(all.take(i as int)),
        decreases lines@.len() - i,
    {
        assert(all.take(i + 1).drop_last() =~= all.take(i as int));
        if !is_blank(lines[i].as_str()) {
            n += 1;
        }
        i += 1;
    }
    assert(all.take(i as int) =~= all);
    n
}

/// How far a replay came: the bytes held back, and the texts fed.
pub struct Replayed {
    pub held: Seq<u8>,
    pub fed: Seq<Seq<char>>,
}

/// How many bytes a list of texts takes.
pub open spec fn bytes_of(fed: Seq<Seq<char>>) -> nat
    decreases fed.len(),
{
    if fed.len() == 0 {
        0
    } else {
        bytes_of(fed.drop_last()) + byte_len(fed.last())
    }
}

/// What replaying chunks feeds: each chunk's newly decoded text, where there is
/// any. The first chunk that leaves bytes which can never be UTF-8 ends the
/// replay; it is named by its number from one, with the bytes fed before it.
pub open spec fn replay(chunks: Seq<ChunkView>) -> Result<Replayed, (nat, nat)>
    decreases chunks.len(),
{
    if chunks.len() == 0 {
        Ok(Replayed { held: Seq::empty(), fed: Seq::empty() })
    } else {
        match replay(chunks.drop_last()) {
            Err(fault) => Err(fault),
            Ok(so_far) => {
                let bytes = chunks.last().bytes;
                let held = carried_after(so_far.held, bytes);
                let text = decoded_after(Seq::empty(), so_far.held, bytes);
                if !may_continue(held) {
                    Err((chunks.len(), bytes_of(so_far.fed)))
                } else if text.len() > 0 {
                    Ok(Replayed { held, fed: so_far.fed.push(text) })
                } else {
                    Ok(Replayed { held, fed: so_far.fed })
                }
            },
        }
    }
}

/// The damaged-line events of feeding texts to a terminal of that size.
pub open spec fn damage(cols: nat, rows: nat, fed: Seq<Seq<char>>) -> nat
    decreases fed.len(),
{
    if fed.len() == 0 {
        0
    } else {
        damage(cols, rows, fed.drop_last()) + vt_changes(cols, rows, fed)
    }
}

/// Why a capture cannot be replayed into a terminal that takes text.
pub open spec fn undecodable(index: nat, count: nat, fed: nat) -> Seq<char> {
    "the capture holds bytes that can never be valid UTF-8, at chunk "@ + decimal(index) + " of "@
        + decimal(count) + " ("@ + decimal(fed)
        + " bytes replayed). `avt` takes `&str`, so it cannot replay this stream at all \u{2014} a finding in its own right, and one that leaves the two libraries with nothing comparable on this capture"@
}

/// A rejected prefix rejects the whole capture.
proof fn lemma_replay_fails(chunks: Seq<ChunkView>, n: int)
    requires
        0 <= n <= chunks.len(),
        replay(chunks.take(n)) is Err,
    ensures
        replay(chunks) == replay(chunks.take(n)),
    decreases chunks.len() - n,
{
    if n == chunks.len() {
        assert(chunks.take(n) =~= chunks);
    } else {
        assert(chunks.take(n + 1).drop_last() =~= chunks.take(n));
        lemma_replay_fails(chunks, n + 1);
    }
}

/// A completed replay: the terminal, and the damage it reported.
pub struct AvtReplay {
    screen: Screen,
    damage_events: usize,
}

impl AvtReplay {
    /// The terminal's columns.
    pub closed spec fn cols(&self) -> nat {
        self.screen.width()
    }

    /// The terminal's rows.
    pub closed spec fn rows(&self) -> nat {
        self.screen.height()
    }

    /// The texts that were fed.
    pub closed spec fn fed(&self) -> Seq<Seq<char>> {
        self.screen.history()
    }

    /// The damage is that of the texts fed, and the terminal was not resized.
    #[verifier::type_invariant]
    spec fn wf(&self) -> bool {
        self.screen.resize_done() is None && self.damage_events == damage(
            self.screen.width(),
            self.screen.height(),
            self.screen.history(),
        )
    }
}

/// Replay a capture into `avt`. It takes text, so characters are reassembled as
/// a terminal reader does; bytes that can never be UTF-8 are an error, not a
/// shorter replay.
pub fn replay_avt(chunks: &Vec<CaptureChunk>, cols: u16, rows: u16) -> (r: Result<
    AvtReplay,
    String,
>)
    requires
        cols >= 2,
        rows >= 1,
        chunks@.len() * rows <= usize::MAX,
    ensures
        match (replay(views(chunks@)), r) {
            (Ok(done), Ok(run)) => run.cols() == cols && run.rows() == rows && run.fed()
                == done.fed,
            (Err((index, fed)), Err(text)) => text@ == undecodable(index, chunks@.len(), fed),
            _ => false,
        },
{
    let ghost all = views(chunks@);
    let mut reassembler = Reassembler::new();
    let mut screen = Screen::new(cols, rows);
    let mut damage_events: usize = 0;
    let mut fed: u128 = 0;
    let mut i: usize = 0;
    assert(all.take(0) =~= Seq::empty());
    while i < chunks.len()
        invariant
            all == views(chunks@),
            chunks@.len() * rows <= usize::MAX,
            i <= chunks@.len(),
            screen.width() == cols,
            screen.height() == rows,
            screen.resize_done() is None,
            reassembler.text() == Seq::<char>::empty(),
            replay(all.take(i as int)) is Ok,
            replay(all.take(i as int))->Ok_0.held == reassembler.held(),
            replay(all.take(i as int))->Ok_0.fed == screen.history(),
            damage_events == damage(cols as nat, rows as nat, screen.history()),
            damage_events <= i * rows,
            fed == bytes_of(screen.history()),
            fed <= i * 0xffff_ffff_ffff_ffff,
        decreases chunks@.len() - i,
    {
        assert(all.take(i + 1).drop_last() =~= all.take(i as int));
        let chunk = &chunks[i];
        assert(all[i as int] == chunk@);
        match reassembler.push(chunk.bytes.as_slice()) {
            Ok(()) => {},
            Err(_) => {
                let mut text =
                    "the capture holds bytes that can never be valid UTF-8, at chunk ".to_owned();
                push_usize(&mut text, i + 1);
                text.append(" of ");
                push_usize(&mut text, chunks.len());
                text.append(" (");
                push_u128(&mut text, fed);
                text.append(
                    " bytes replayed). `avt` takes `&str`, so it cannot replay this stream at all \u{2014} a finding in its own right, and one that leaves the two libraries with nothing comparable on this capture",
                );
                proof {
                    lemma_replay_fails(all, i + 1);
                }
                return Err(text);
            },
        }
        let text = reassembler.take_decoded();
        proof {
            assert((i + 1) * rows == i * rows + rows) by (nonlinear_arith);
            assert((i + 1) * rows <= chunks@.len() * rows) by (nonlinear_arith)
                requires
                    i + 1 <= chunks@.len(),
            ;
        }
        if chars_of(text.as_str()).len() > 0 {
            let ghost before = screen.history();
            let changed = screen.feed(text.as_str());
            assert(screen.history().drop_last() =~= before);
            damage_events = damage_events + changed;
            fed = fed + text.as_str().as_bytes().len() as u128;
        }
        i += 1;
    }
    assert(all.take(i as int) =~= all);
    Ok(AvtReplay { screen, damage_events })
}

impl AvtReplay {
    /// What the replay reports, given the time that it took: the viewport, and
    /// the viewport after a resize.
    pub fn finish(self, feed_micros: u128) -> (run: VtRun)
        ensures
            ({
                let cols = self.cols();
                let rows = self.rows();
                let fed = self.fed();
                &&& run.library@ == "avt"@
                &&& run.feed_micros == feed_micros
                &&& run.damage_events == damage(cols, rows, fed)
                &&& run.damage_granularity@
                    == "changed line indices per feed (Changes.lines), no column bounds"@
                &&& run.non_blank_lines == non_blank(vt_text(cols, rows, fed, None))
                &&& run.non_blank_lines_after_resize == non_blank(
                    vt_text(cols, rows, fed, Some((120, 40))),
                )
                &&& run.resize_behavior@ == "Vt::resize returns the "@ + decimal(
                    vt_resize_changes(cols, rows, fed, 120, 40),
                )
                    + " changed lines; feed_str takes &str, so the caller owns UTF-8 reassembly"@
            }),
    {
        proof {
            use_type_invariant(&self);
        }
        let AvtReplay { screen, damage_events } = self;
        let mut screen = screen;
        let before = count_non_blank(&screen.text());
        let changed = screen.resize(RESIZED_COLS, RESIZED_ROWS);
        let after = count_non_blank(&screen.text());
        let mut resize_behavior = "Vt::resize returns the ".to_owned();
        push_usize(&mut resize_behavior, changed);
        resize_behavior.append(
            " changed lines; feed_str takes &str, so the caller owns UTF-8 reassembly",
        );
        VtRun {
            library: "avt",
            feed_micros,
            damage_events,
            damage_granularity: "changed line indices per feed (Changes.lines), no column bounds",
            non_blank_lines: before,
            non_blank_lines_after_resize: after,
            resize_behavior,
        }
    }
}

/// A replay feeds every decodable character once, in order: the texts fed spell
/// the text of the whole stream, however it was cut into chunks.
pub proof fn law_a_replay_feeds_the_whole_text(chunks: Seq<ChunkView>)
    requires
        replay(chunks) is Ok,
    ensures
        ({
            let done = replay(chunks)->Ok_0;
            &&& done.held == carried_after(Seq::empty(), all_bytes(chunks))
            &&& spelled(done.fed) == decoded_after(Seq::empty(), Seq::empty(), all_bytes(chunks))
        }),
    decreases chunks.len(),
{
    broadcast use vstd::seq_lib::group_seq_properties;

    if chunks.len() == 0 {
        assert(Seq::<u8>::empty() + Seq::<u8>::empty() =~= Seq::<u8>::empty());
        lemma_nothing_decodes();
    } else {
        let before = replay(chunks.drop_last())->Ok_0;
        law_a_replay_feeds_the_whole_text(chunks.drop_last());
        let bytes = chunks.last().bytes;
        let stream = all_bytes(chunks.drop_last());
        crate::utf8::law_chunk_boundaries_are_immaterial(
            Seq::empty(),
            Seq::empty(),
            stream,
            bytes,
        );
        let text = decoded_after(Seq::empty(), before.held, bytes);
        let done = replay(chunks)->Ok_0;
        assert(spelled(done.fed) =~= spelled(before.fed) + text) by {
            if text.len() > 0 {
                assert(done.fed.drop_last() =~= before.fed);
            }
        }
        assert(decoded_after(spelled(before.fed), before.held, bytes) =~= spelled(before.fed)
            + text);
    }
}

/// What a list of texts spells.
pub open spec fn spelled(fed: Seq<Seq<char>>) -> Seq<char>
    decreases fed.len(),
{
    if fed.len() == 0 {
        Seq::empty()
    } else {
        spelled(fed.drop_last()) + fed.last()
    }
}

proof fn lemma_nothing_decodes()
    ensures
        carried_after(Seq::empty(), Seq::empty()) == Seq::<u8>::empty(),
        decoded_after(Seq::empty(), Seq::empty(), Seq::empty()) == Seq::<char>::empty(),
{
    let nothing = Seq::<u8>::empty() + Seq::<u8>::empty();
    assert(nothing =~= Seq::<u8>::empty());
    crate::utf8::law_no_byte_is_lost(Seq::empty(), Seq::empty(), Seq::empty());
}

/// `alacritty_terminal::term::Term` and the `Processor` that drives it, held
/// opaque: the processor's type parameter is bound by a trait of its own crate.
#[verifier::external_body]
struct Emulator {
    term: Term<VoidListener>,
    parser: Processor,
}

/// What `alacritty_terminal::term::Term::damage` reports after the last of the
/// chunks fed to a terminal of that size, its damage read and reset after each:
/// how many lines, or `None` for the whole screen.
pub uninterp spec fn grid_damage(cols: nat, rows: nat, fed: Seq<Seq<u8>>) -> Option<nat>;

/// The character of a cell of the grid of a terminal of that size, after those
/// chunks and, at the end, a resize where there was one.
pub uninterp spec fn grid_cell(
    cols: nat,
    rows: nat,
    fed: Seq<Seq<u8>>,
    resized: Option<(nat, nat)>,
    line: nat,
    column: nat,
) -> char;

/// The size of a terminal after a resize where there was one: columns and rows.
pub open spec fn size_after(cols: nat, rows: nat, resized: Option<(nat, nat)>) -> (nat, nat) {
    match resized {
        Some(size) => size,
        None => (cols, rows),
    }
}

/// The rows of the grid of a terminal of that size, after those chunks and, at
/// the end, a resize where there was one.
pub open spec fn grid_rows(
    cols: nat,
    rows: nat,
    fed: Seq<Seq<u8>>,
    resized: Option<(nat, nat)>,
) -> Seq<Seq<char>> {
    let (width, height) = size_after(cols, rows, resized);
    Seq::new(
        height,
        |line: int|
            Seq::new(
                width,
                |column: int|
                    grid_cell(cols, rows, fed, resized, line as nat, column as nat),
            ),
    )
}

/// What a terminal that samples damage reports after one chunk.
#[derive(Clone, Copy, PartialEq, Eq, Debug, Structural)]
pub enum Damage {
    /// The whole screen.
    Full,
    /// So many lines.
    Partial(usize),
}

/// A terminal that takes bytes, together with what was done to it.
pub struct Grid {
    emulator: Emulator,
    cols: u16,
    rows: u16,
    fed: Ghost<Seq<Seq<u8>>>,
    sampled: Ghost<bool>,
    resized: Ghost<Option<(nat, nat)>>,
}

impl Grid {
    /// The columns that it was made with.
    pub closed spec fn width(&self) -> nat {
        self.cols as nat
    }

    /// The rows that it was made with.
    pub closed spec fn height(&self) -> nat {
        self.rows as nat
    }

    /// The chunks that it was fed, in order.
    pub closed spec fn history(&self) -> Seq<Seq<u8>> {
        self.fed@
    }

    /// Whether the damage of all that it was fed was read and reset.
    pub closed spec fn is_sampled(&self) -> bool {
        self.sampled@
    }

    /// The size that it was resized to at the end, if it was.
    pub closed spec fn resize_done(&self) -> Option<(nat, nat)> {
        self.resized@
    }

    /// `alacritty_terminal::term::Term::new` with the default configuration and a
    /// listener that ignores events: a terminal that nothing was done to. Two
    /// columns and one line are the least that the crate supports.
    #[verifier::external_body]
    pub(crate) fn new(cols: u16, rows: u16) -> (g: Self)
        requires
            cols >= 2,
            rows >= 1,
        ensures
            g.width() == cols,
            g.height() == rows,
            g.history() == Seq::<Seq<u8>>::empty(),
            g.is_sampled(),
            g.resize_done() is None,
    {
        let size = TermSize::new(cols as usize, rows as usize);
        let term = Term::new(Config::default(), &size, VoidListener);
        let emulator = Emulator { term, parser: Processor::new() };
        Grid {
            emulator,
            cols,
            rows,
            fed: Ghost(Seq::empty()),
            sampled: Ghost(true),
            resized: Ghost(None),
        }
    }

    /// `alacritty_terminal::vte::ansi::Processor::advance`: the terminal takes a
    /// chunk of bytes.
    #[verifier::external_body]
    pub(crate) fn advance(&mut self, bytes: &[u8])
        requires
            old(self).is_sampled(),
            old(self).resize_done() is None,
        ensures
            final(self).width() == old(self).width(),
            final(self).height() == old(self).height(),
            final(self).history() == old(self).history().push(bytes@),
            !final(self).is_sampled(),
            final(self).resize_done() is None,
    {
        self.emulator.parser.advance(&mut self.emulator.term, bytes);
    }

    /// `alacritty_terminal::term::Term::damage`, and then `Term::reset_damage`:
    /// the whole screen, or how many of its lines. Each line is reported at most
    /// once.
    #[verifier::external_body]
    pub(crate) fn sample_damage(&mut self) -> (damage: Damage)
        requires
            !old(self).is_sampled(),
            old(self).resize_done() is None,
        ensures
            final(self).width() == old(self).width(),
            final(self).height() == old(self).height(),
            final(self).history() == old(self).history(),
            final(self).is_sampled(),
            final(self).resize_done() is None,
            match damage {
                Damage::Full => grid_damage(
                    old(self).width(),
                    old(self).height(),
                    old(self).history(),
                ) is None,
                Damage::Partial(lines) => lines <= old(self).height() && grid_damage(
                    old(self).width(),
                    old(self).height(),
                    old(self).history(),
                ) == Some(lines as nat),
            },
    {
        let damage = match self.emulator.term.damage() {
            TermDamage::Full => Damage::Full,
            TermDamage::Partial(lines) => Damage::Partial(lines.count()),
        };
        self.emulator.term.reset_damage();
        damage
    }

    /// `alacritty_terminal::term::Term::resize`.
    #[verifier::external_body]
    pub(crate) fn resize(&mut self, cols: u16, rows: u16)
        requires
            old(self).is_sampled(),
            old(self).resize_done() is None,
            cols >= 2,
            rows >= 1,
        ensures
            final(self).width() == old(self).width(),
            final(self).height() == old(self).height(),
            final(self).history() == old(self).history(),
            final(self).is_sampled(),
            final(self).resize_done() == Some((cols as nat, rows as nat)),
    {
        self.emulator.term.resize(TermSize::new(cols as usize, rows as usize));
    }

    /// The character of a cell in the grid of `alacritty_terminal::term::Term::grid`,
    /// by its line and column.
    #[verifier::external_body]
    pub(crate) fn cell(&self, line: u16, column: u16) -> (c: char)
        requires
            self.is_sampled(),
            column < size_after(self.width(), self.height(), self.resize_done()).0,
            line < size_after(self.width(), self.height(), self.resize_done()).1,
        ensures
            c == grid_cell(
                self.width(),
                self.height(),
                self.history(),
                self.resize_done(),
                line as nat,
                column as nat,
            ),
    {
        self.emulator.term.grid()[Line(line as i32)][Column(column as usize)].c
    }

    /// The rows of the grid, given its size.
    fn rows(&self, cols: u16, rows: u16) -> (lines: Vec<String>)
        requires
            self.is_sampled(),
            (cols as nat, rows as nat) == size_after(
                self.width(),
                self.height(),
                self.resize_done(),
            ),
        ensures
            texts(lines@) == grid_rows(
                self.width(),
                self.height(),
                self.history(),
                self.resize_done(),
            ),
    {
        broadcast use crate::report::lemma_texts_push;

        let ghost all = grid_rows(
            self.width(),
            self.height(),
            self.history(),
            self.resize_done(),
        );
        let mut lines: Vec<String> = Vec::new();
        let mut line: u16 = 0;
        assert(texts(lines@) =~= all.take(0));
        while line < rows
            invariant
                self.is_sampled(),
                (cols as nat, rows as nat) == size_after(
                    self.width(),
                    self.height(),
                    self.resize_done(),
                ),
                all == grid_rows(
                    self.width(),
                    self.height(),
                    self.history(),
                    self.resize_done(),
                ),
                line <= rows,
                texts(lines@) == all.take(line as int),
            decreases rows - line,
        {
            let mut text = String::new();
            let mut column: u16 = 0;
            while column < cols
                invariant
                    self.is_sampled(),
                    (cols as nat, rows as nat) == size_after(
                        self.width(),
                        self.height(),
                        self.resize_done(),
                    ),
                    all == grid_rows(
                        self.width(),
                        self.height(),
                        self.history(),
                        self.resize_done(),
                    ),
                    line < rows,
                    column <= cols,
                    text@ =~= all[line as int].take(column as int),
                decreases cols - column,
            {
                text.push(self.cell(line, column));
                column += 1;
            }
            assert(text@ =~= all[line as int]);
            assert(all.take(line + 1) =~= all.take(line as int).push(text@));
            lines.push(text);
            line += 1;
        }
        assert(all.take(line as int) =~= all);
        lines
    }
}

/// The damaged-line events of feeding chunks to a terminal of that size: a whole
/// screen counts as all of its rows.
pub open spec fn grid_damage_total(cols: nat, rows: nat, fed: Seq<Seq<u8>>) -> nat
    decreases fed.len(),
{
    if fed.len() == 0 {
        0
    } else {
        grid_damage_total(cols, rows, fed.drop_last()) + match grid_damage(cols, rows, fed) {
            Some(lines) => lines,
            None => rows,
        }
    }
}

/// The bytes of each chunk.
pub open spec fn chunk_bytes(chunks: Seq<ChunkView>) -> Seq<Seq<u8>> {
    chunks.map_values(|c: ChunkView| c.bytes)
}

/// A completed replay: the terminal, and the damage that it reported.
pub struct AlacrittyReplay {
    grid: Grid,
    cols: u16,
    rows: u16,
    damage_events: usize,
}

impl AlacrittyReplay {
    /// The terminal's columns.
    pub closed spec fn cols(&self) -> nat {
        self.grid.width()
    }

    /// The terminal's rows.
    pub closed spec fn rows(&self) -> nat {
        self.grid.height()
    }

    /// The chunks that were fed.
    pub closed spec fn fed(&self) -> Seq<Seq<u8>> {
        self.grid.history()
    }

    /// The damage is that of the chunks fed, and the terminal was not resized.
    #[verifier::type_invariant]
    spec fn wf(&self) -> bool {
        &&& self.grid.is_sampled()
        &&& self.grid.resize_done() is None
        &&& self.grid.width() == self.cols
        &&& self.grid.height() == self.rows
        &&& self.damage_events == grid_damage_total(
            self.grid.width(),
            self.grid.height(),
            self.grid.history(),
        )
    }
}

/// Replay a capture into `alacritty_terminal`. It takes raw bytes and cannot
/// refuse a stream. Damage accumulates until it is reset, so it is sampled after
/// each chunk.
pub fn replay_alacritty(chunks: &Vec<CaptureChunk>, cols: u16, rows: u16) -> (r: AlacrittyReplay)
    requires
        cols >= 2,
        rows >= 1,
        chunks@.len() * rows <= usize::MAX,
    ensures
        r.cols() == cols,
        r.rows() == rows,
        r.fed() == chunk_bytes(views(chunks@)),
{
    let ghost all = chunk_bytes(views(chunks@));
    let mut grid = Grid::new(cols, rows);
    let mut damage_events: usize = 0;
    let mut i: usize = 0;
    assert(all.take(0) =~= Seq::empty());
    while i < chunks.len()
        invariant
            all == chunk_bytes(views(chunks@)),
            chunks@.len() * rows <= usize::MAX,
            i <= chunks@.len(),
            grid.width() == cols,
            grid.height() == rows,
            grid.is_sampled(),
            grid.resize_done() is None,
            grid.history() == all.take(i as int),
            damage_events == grid_damage_total(cols as nat, rows as nat, grid.history()),
            damage_events <= i * rows,
        decreases chunks@.len() - i,
    {
        let ghost before = grid.history();
        let chunk = &chunks[i];
        assert(all[i as int] == chunk@.bytes);
        grid.advance(chunk.bytes.as_slice());
        assert(grid.history() =~= all.take(i + 1));
        assert(grid.history().drop_last() =~= before);
        let more: usize = match grid.sample_damage() {
            Damage::Full => rows as usize,
            Damage::Partial(lines) => lines,
        };
        proof {
            assert((i + 1) * rows == i * rows + rows) by (nonlinear_arith);
            assert((i + 1) * rows <= chunks@.len() * rows) by (nonlinear_arith)
                requires
                    i + 1 <= chunks@.len(),
            ;
        }
        damage_events = damage_events + more;
        i += 1;
    }
    assert(all.take(i as int) =~= all);
    AlacrittyReplay { grid, cols, rows, damage_events }
}

/// Whether a row of cells shows anything but spaces.
pub open spec fn row_shows(row: Seq<char>) -> bool {
    exists|i: int| 0 <= i < row.len() && #[trigger] row[i] != ' '
}

/// How many rows of cells show anything but spaces.
pub open spec fn rows_shown(rows: Seq<Seq<char>>) -> nat
    decreases rows.len(),
{
    if rows.len() == 0 {
        0
    } else {
        rows_shown(rows.drop_last()) + if row_shows(rows.last()) {
            1nat
        } else {
            0nat
        }
    }
}

fn shows_cells(row: &str) -> (yes: bool)
    ensures
        yes == row_shows(row@),
{
    let cells = chars_of(row);
    let mut i: usize = 0;
    while i < cells.len()
        invariant
            cells@ == row@,
            i <= cells@.len(),
            forall|j: int| 0 <= j < i ==> #[trigger] cells@[j] == ' ',
        decreases cells@.len() - i,
    {
        if cells[i] != ' ' {
            assert(row@[i as int] != ' ');
            return true;
        }
        i += 1;
    }
    false
}

/// How many rows of cells show anything but spaces.
pub fn count_rows_shown(rows: &Vec<String>) -> (n: usize)
    ensures
        n == rows_shown(texts(rows@)),
{
    let ghost all = texts(rows@);
    let mut n: usize = 0;
    let mut i: usize = 0;
    assert(all.take(0) =~= Seq::empty());
    while i < rows.len()
        invariant
            all == texts(rows@),
            i <= rows@.len(),
            n <= i,
            n == rows_shown(all.take(i as int)),
        decreases rows@.len() - i,
    {
        assert(all.take(i + 1).drop_last() =~= all.take(i as int));
        if shows_cells(rows[i].as_str()) {
            n += 1;
        }
        i += 1;
    }
    assert(all.take(i as int) =~= all);
    n
}

/// What a replay into `alacritty_terminal` reports: the time that it took, the
/// damage, and the rows of the grid before and after the resize.
pub fn alacritty_run(
    feed_micros: u128,
    damage_events: usize,
    before: &Vec<String>,
    after: &Vec<String>,
) -> (run: VtRun)
    ensures
        run.library@ == "alacritty_terminal"@,
        run.feed_micros == feed_micros,
        run.damage_events == damage_events,
        run.damage_granularity@
            == "per-line with left..=right column bounds (TermDamage::Partial)"@,
        run.non_blank_lines == rows_shown(texts(before@)),
        run.non_blank_lines_after_resize == rows_shown(texts(after@)),
        run.resize_behavior@
            == "Term::resize(Dimensions) in place; scrollback retained, grid reflowed to 120x40 ("@
            + decimal(rows_shown(texts(after@))) + " non-blank lines)"@,
{
    let shown_after = count_rows_shown(after);
    let mut resize_behavior =
        "Term::resize(Dimensions) in place; scrollback retained, grid reflowed to 120x40 (".to_owned();
    push_usize(&mut resize_behavior, shown_after);
    resize_behavior.append(" non-blank lines)");
    VtRun {
        library: "alacritty_terminal",
        feed_micros,
        damage_events,
        damage_granularity: "per-line with left..=right column bounds (TermDamage::Partial)",
        non_blank_lines: count_rows_shown(before),
        non_blank_lines_after_resize: shown_after,
        resize_behavior,
    }
}

impl AlacrittyReplay {
    /// What the replay reports, given the time that it took: the viewport, and
    /// the viewport after a resize.
    pub fn finish(self, feed_micros: u128) -> (run: VtRun)
        ensures
            ({
                let cols = self.cols();
                let rows = self.rows();
                let fed = self.fed();
                let after = rows_shown(grid_rows(cols, rows, fed, Some((120, 40))));
                &&& run.library@ == "alacritty_terminal"@
                &&& run.feed_micros == feed_micros
                &&& run.damage_events == grid_damage_total(cols, rows, fed)
                &&& run.damage_granularity@
                    == "per-line with left..=right column bounds (TermDamage::Partial)"@
                &&& run.non_blank_lines == rows_shown(grid_rows(cols, rows, fed, None))
                &&& run.non_blank_lines_after_resize == after
                &&& run.resize_behavior@
                    == "Term::resize(Dimensions) in place; scrollback retained, grid reflowed to 120x40 ("@
                    + decimal(after) + " non-blank lines)"@
            }),
    {
        proof {
            use_type_invariant(&self);
        }
        let AlacrittyReplay { grid, cols, rows, damage_events } = self;
        let mut grid = grid;
        let before = grid.rows(cols, rows);
        grid.resize(RESIZED_COLS, RESIZED_ROWS);
        let after = grid.rows(RESIZED_COLS, RESIZED_ROWS);
        alacritty_run(feed_micros, damage_events, &before, &after)
    }
}

/// What a replay reports in its step line.
pub fn report_run(run: &VtRun) -> (text: String)
    ensures
        text@ == "feed="@ + decimal(run.feed_micros as nat) + "us damage_events="@ + decimal(
            run.damage_events as nat,
        ) + " damage="@ + run.damage_granularity@ + " viewport_non_blank="@ + decimal(
            run.non_blank_lines as nat,
        ) + " after_resize="@ + decimal(run.non_blank_lines_after_resize as nat) + " resize="@
            + run.resize_behavior@,
{
    let mut text = "feed=".to_owned();
    push_u128(&mut text, run.feed_micros);
    text.append("us damage_events=");
    push_usize(&mut text, run.damage_events);
    text.append(" damage=");
    text.append(run.damage_granularity);
    text.append(" viewport_non_blank=");
    push_usize(&mut text, run.non_blank_lines);
    text.append(" after_resize=");
    push_usize(&mut text, run.non_blank_lines_after_resize);
    text.append(" resize=");
    text.append(run.resize_behavior.as_str());
    text
}

/// What a capture that is to be replayed reports.
pub fn capture_detail(path: &str, chunks: &Vec<CaptureChunk>) -> (text: String)
    ensures
        text@ == path@ + " \u{2014} "@ + decimal(chunks@.len()) + " chunks, "@ + decimal(
            all_bytes(views(chunks@)).len(),
        ) + " bytes, "@ + quotient_text(
            if chunks@.len() > 0 {
                chunks@.last().t_ns as nat
            } else {
                0
            },
            1_000_000_000,
            10,
        ) + "s of recorded session"@,
{
    let ghost all = views(chunks@);
    let mut bytes: u128 = 0;
    let mut i: usize = 0;
    assert(all.take(0) =~= Seq::empty());
    while i < chunks.len()
        invariant
            all == views(chunks@),
            i <= chunks@.len(),
            bytes == all_bytes(all.take(i as int)).len(),
            bytes <= i * 0xffff_ffff_ffff_ffff,
        decreases chunks@.len() - i,
    {
        assert(all.take(i + 1).drop_last() =~= all.take(i as int));
        assert(all[i as int] == chunks@[i as int]@);
        bytes = bytes + chunks[i].bytes.len() as u128;
        i += 1;
    }
    assert(all.take(i as int) =~= all);
    let last: u64 = if chunks.len() > 0 {
        chunks[chunks.len() - 1].t_ns
    } else {
        0
    };
    let mut text = path.to_owned();
    text.append(" \u{2014} ");
    push_usize(&mut text, chunks.len());
    text.append(" chunks, ");
    push_u128(&mut text, bytes);
    text.append(" bytes, ");
    push_quotient(&mut text, last, 1_000_000_000, 10);
    text.append("s of recorded session");
    text
}

/// The damage of a replay is what each text that was fed changed, added up.
pub proof fn law_damage_is_added_up(cols: nat, rows: nat, fed: Seq<Seq<char>>)
    ensures
        damage(cols, rows, fed) == sum(
            |i: int| vt_changes(cols, rows, fed.take(i + 1)) as int,
            fed.len() as int,
        ),
    decreases fed.len(),
{
    let each = |i: int| vt_changes(cols, rows, fed.take(i + 1)) as int;
    if fed.len() > 0 {
        let front = fed.drop_last();
        law_damage_is_added_up(cols, rows, front);
        let earlier = |i: int| vt_changes(cols, rows, front.take(i + 1)) as int;
        assert forall|i: int| 0 <= i < front.len() implies #[trigger] each(i) == earlier(i) by {
            assert(fed.take(i + 1) =~= front.take(i + 1));
        }
        lemma_sum_same(each, earlier, front.len() as int);
        assert(fed.take(fed.len() as int) =~= fed);
    }
}

/// The damage of a replay of raw bytes is the lines that each chunk damaged, added
/// up, all rows of the screen where it damaged the whole.
pub proof fn law_grid_damage_is_added_up(cols: nat, rows: nat, fed: Seq<Seq<u8>>)
    ensures
        grid_damage_total(cols, rows, fed) == sum(
            |i: int|
                match grid_damage(cols, rows, fed.take(i + 1)) {
                    Some(lines) => lines as int,
                    None => rows as int,
                },
            fed.len() as int,
        ),
    decreases fed.len(),
{
    let each = |i: int|
        match grid_damage(cols, rows, fed.take(i + 1)) {
            Some(lines) => lines as int,
            None => rows as int,
        };
    if fed.len() > 0 {
        let front = fed.drop_last();
        law_grid_damage_is_added_up(cols, rows, front);
        let earlier = |i: int|
            match grid_damage(cols, rows, front.take(i + 1)) {
                Some(lines) => lines as int,
                None => rows as int,
            };
        assert forall|i: int| 0 <= i < front.len() implies #[trigger] each(i) == earlier(i) by {
            assert(fed.take(i + 1) =~= front.take(i + 1));
        }
        lemma_sum_same(each, earlier, front.len() as int);
        assert(fed.take(fed.len() as int) =~= fed);
    }
}

/// Whether some cell of a row is not a space.
pub open spec fn holds_a_sign(row: Seq<char>) -> bool {
    !(forall|k: int| 0 <= k < row.len() ==> #[trigger] row[k] == ' ')
}

/// The lines that count are those that show something: of a text, anything but
/// white space; of a grid, any cell but a space.
pub proof fn law_only_lines_that_show_something_count(lines: Seq<Seq<char>>)
    ensures
        non_blank(lines) == sum(
            |i: int| if all_space(lines[i]) { 0int } else { 1int },
            lines.len() as int,
        ),
        rows_shown(lines) == sum(
            |i: int|
                if holds_a_sign(lines[i]) {
                    1int
                } else {
                    0int
                },
            lines.len() as int,
        ),
    decreases lines.len(),
{
    let texts = |i: int| if all_space(lines[i]) { 0int } else { 1int };
    let cells = |i: int|
        if holds_a_sign(lines[i]) {
            1int
        } else {
            0int
        };
    if lines.len() > 0 {
        let front = lines.drop_last();
        law_only_lines_that_show_something_count(front);
        lemma_sum_same(
            texts,
            |i: int| if all_space(front[i]) { 0int } else { 1int },
            front.len() as int,
        );
        lemma_sum_same(
            cells,
            |i: int|
                if holds_a_sign(front[i]) {
                    1int
                } else {
                    0int
                },
            front.len() as int,
        );
        let n = lines.len() - 1;
        assert(lines[n] == lines.last());
        assert(texts(n) == if all_space(lines.last()) {
            0int
        } else {
            1int
        });
        assert(cells(n) == if row_shows(lines.last()) {
            1int
        } else {
            0int
        });
    }
}

/// A replay fails at the first chunk with which the stream so far can never be
/// UTF-8, and not without one.
pub proof fn law_a_replay_fails_at_its_first_bad_chunk(chunks: Seq<ChunkView>)
    ensures
        replay(chunks) is Ok ==> may_continue(carried_after(Seq::empty(), all_bytes(chunks))),
        replay(chunks) matches Err((index, fed)) ==> {
            &&& 1 <= index <= chunks.len()
            &&& replay(chunks.take(index - 1)) is Ok
            &&& !may_continue(carried_after(Seq::empty(), all_bytes(chunks.take(index as int))))
            &&& fed == bytes_of(replay(chunks.take(index - 1))->Ok_0.fed)
        },
    decreases chunks.len(),
{
    if chunks.len() == 0 {
        lemma_nothing_decodes();
    } else {
        let front = chunks.drop_last();
        law_a_replay_fails_at_its_first_bad_chunk(front);
        if replay(front) is Ok {
            law_a_replay_feeds_the_whole_text(front);
            let so_far = replay(front)->Ok_0;
            crate::utf8::law_chunk_boundaries_are_immaterial(
                Seq::empty(),
                Seq::empty(),
                all_bytes(front),
                chunks.last().bytes,
            );
            assert(carried_after(so_far.held, chunks.last().bytes) == carried_after(
                Seq::empty(),
                all_bytes(chunks),
            ));
            assert(chunks.take(chunks.len() - 1) =~= front);
            assert(chunks.take(chunks.len() as int) =~= chunks);
        } else {
            let index = replay(front)->Err_0.0;
            assert(chunks.take(index - 1) =~= front.take(index - 1));
            assert(chunks.take(index as int) =~= front.take(index as int));
        }
    }
}

/// The bytes of what was fed are the bytes of each text, added up.
pub proof fn law_fed_bytes_are_added_up(fed: Seq<Seq<char>>)
    ensures
        bytes_of(fed) == sum(|i: int| byte_len(fed[i]) as int, fed.len() as int),
    decreases fed.len(),
{
    if fed.len() > 0 {
        let front = fed.drop_last();
        law_fed_bytes_are_added_up(front);
        lemma_sum_same(
            |i: int| byte_len(fed[i]) as int,
            |i: int| byte_len(front[i]) as int,
            front.len() as int,
        );
    }
}

/// No text that is fed is empty.
pub proof fn law_only_text_is_fed(chunks: Seq<ChunkView>)
    ensures
        replay(chunks) matches Ok(done) ==> forall|i: int|
            0 <= i < done.fed.len() ==> (#[trigger] done.fed[i]).len() > 0,
    decreases chunks.len(),
{
    if chunks.len() > 0 {
        law_only_text_is_fed(chunks.drop_last());
    }
}

} // verus!
