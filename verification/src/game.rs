use vstd::prelude::*;

use crate::chunk::ChunkSource;
use crate::console::Console;
use crate::game_state::GameState;
use crate::state_explore::{greeting_text, tick_rel, tick_result_spec, StateExplore};
use crate::surface::{
    cell_at, Surface, GAME_AREA_CENTRE_X, GAME_AREA_CENTRE_Y, GAME_AREA_HEIGHT, GAME_AREA_WIDTH,
};
use crate::world::{chunk_coord, load_missing, window_positions, world_rendered_cell};

verus! {

/// The whitespace stripped from both ends of an input line.
pub open spec fn is_trim_char(c: char) -> bool {
    c == ' ' || c == '\t' || c == '\r' || c == '\n'
}

pub open spec fn trim_front(s: Seq<char>) -> Seq<char>
    decreases s.len(),
{
    if s.len() > 0 && is_trim_char(s[0]) {
        trim_front(s.drop_first())
    } else {
        s
    }
}

pub open spec fn trim_back(s: Seq<char>) -> Seq<char>
    decreases s.len(),
{
    if s.len() > 0 && is_trim_char(s.last()) {
        trim_back(s.drop_last())
    } else {
        s
    }
}

/// An input line with leading and trailing whitespace removed.
pub open spec fn trim_spec(s: Seq<char>) -> Seq<char> {
    trim_back(trim_front(s))
}

/// A line split on single spaces: consecutive spaces yield empty tokens, and
/// the empty line yields one empty token.
pub open spec fn split_spaces(s: Seq<char>) -> Seq<Seq<char>>
    decreases s.len(),
{
    if s.len() == 0 {
        seq![Seq::<char>::empty()]
    } else if s[0] == ' ' {
        seq![Seq::<char>::empty()] + split_spaces(s.drop_first())
    } else {
        let r = split_spaces(s.drop_first());
        seq![seq![s[0]] + r[0]] + r.drop_first()
    }
}

/// The argument tokens one raw input line dispatches as.
pub open spec fn tokenized(line: Seq<char>) -> Seq<Seq<char>> {
    split_spaces(trim_spec(line))
}

/// Splitting never yields an empty token list.
pub proof fn lemma_split_spaces_len(s: Seq<char>)
    ensures
        split_spaces(s).len() >= 1,
    decreases s.len(),
{
    if s.len() > 0 {
        lemma_split_spaces_len(s.drop_first());
    }
}

/// A stretch without spaces is one whole token.
proof fn lemma_split_no_space(s: Seq<char>)
    requires
        forall|i: int| 0 <= i < s.len() ==> s[i] != ' ',
    ensures
        split_spaces(s) == seq![s],
    decreases s.len(),
{
    if s.len() == 0 {
        assert(s =~= Seq::<char>::empty());
        assert(split_spaces(s) =~~= seq![s]);
    } else {
        assert(s[0] != ' ');
        lemma_split_no_space(s.drop_first());
        lemma_split_spaces_len(s.drop_first());
        let r = split_spaces(s.drop_first());
        assert(r == seq![s.drop_first()]);
        assert(seq![s[0]] + r[0] =~= s);
        assert(r.drop_first() =~= Seq::<Seq<char>>::empty());
        assert(split_spaces(s) =~~= seq![s]);
    }
}

/// Splitting at the first space: everything before it is the first token,
/// and the rest splits on its own.
proof fn lemma_split_at_space(s: Seq<char>, j: int)
    requires
        0 <= j < s.len(),
        s[j] == ' ',
        forall|i: int| 0 <= i < j ==> s[i] != ' ',
    ensures
        split_spaces(s) == seq![s.take(j)] + split_spaces(s.skip(j + 1)),
    decreases j,
{
    if j == 0 {
        assert(s.take(0) =~= Seq::<char>::empty());
        assert(s.skip(1) =~= s.drop_first());
        assert(split_spaces(s) =~~= seq![s.take(0)] + split_spaces(s.skip(1)));
    } else {
        assert(s[0] != ' ');
        let d = s.drop_first();
        assert(d[j - 1] == ' ');
        assert(forall|i: int| 0 <= i < j - 1 ==> d[i] == s[i + 1] && d[i] != ' ');
        lemma_split_at_space(d, j - 1);
        lemma_split_spaces_len(d);
        let r = split_spaces(d);
        assert(r == seq![d.take(j - 1)] + split_spaces(d.skip(j)));
        assert(r[0] == d.take(j - 1));
        assert(seq![s[0]] + d.take(j - 1) =~= s.take(j));
        assert(r.drop_first() =~= split_spaces(d.skip(j)));
        assert(d.skip(j) =~= s.skip(j + 1));
        assert(split_spaces(s) =~~= seq![s.take(j)] + split_spaces(s.skip(j + 1)));
    }
}

/// Trim an input line and split it on single spaces into argument tokens.
pub fn tokenize(line: &str) -> (tokens: Vec<String>)
    ensures
        tokens@.map_values(|t: String| t@) == tokenized(line@),
{
    let n = line.unicode_len();
    let mut start: usize = 0;
    proof {
        assert(line@.skip(0) =~= line@);
    }
    while start < n && is_trim_exec(line.get_char(start))
        invariant
            start <= n,
            n == line@.len(),
            trim_front(line@.skip(start as int)) == trim_front(line@),
        decreases n - start,
    {
        proof {
            assert(line@.skip(start as int)[0] == line@[start as int]);
            assert(line@.skip(start as int).drop_first() =~= line@.skip(start + 1));
        }
        start = start + 1;
    }
    proof {
        if start == n {
            assert(line@.skip(start as int) =~= Seq::<char>::empty());
        }
        assert(line@.skip(start as int) == trim_front(line@));
        assert(line@.subrange(start as int, n as int) =~= line@.skip(start as int));
    }
    let mut end: usize = n;
    while end > start && is_trim_exec(line.get_char(end - 1))
        invariant
            start <= end <= n,
            n == line@.len(),
            trim_back(line@.subrange(start as int, end as int)) == trim_back(
                line@.subrange(start as int, n as int),
            ),
        decreases end,
    {
        proof {
            assert(line@.subrange(start as int, end as int).last() == line@[end - 1]);
            assert(line@.subrange(start as int, end as int).drop_last() =~= line@.subrange(
                start as int,
                end - 1,
            ));
        }
        end = end - 1;
    }
    proof {
        if end == start {
            assert(line@.subrange(start as int, end as int) =~= Seq::<char>::empty());
        }
        assert(line@.subrange(start as int, end as int) == trim_spec(line@));
    }
    let trimmed = line.substring_char(start, end);
    let ghost ts = trimmed@;
    let m = end - start;
    proof {
        assert(ts.len() == m);
        assert(ts.skip(0) =~= ts);
    }
    let mut tokens: Vec<String> = Vec::new();
    let mut pos: usize = 0;
    let mut done = false;
    while !done
        invariant
            pos <= m,
            m == ts.len(),
            m <= n,
            ts == trim_spec(line@),
            trimmed@ == ts,
            n == line@.len(),
            !done ==> split_spaces(ts) == tokens@.map_values(|t: String| t@) + split_spaces(
                ts.skip(pos as int),
            ),
            done ==> split_spaces(ts) == tokens@.map_values(|t: String| t@),
        decreases m - pos, (if done {
            0int
        } else {
            1int
        }),
    {
        let mut j = pos;
        while j < m && !is_space_exec(trimmed.get_char(j))
            invariant
                pos <= j <= m,
                m == ts.len(),
                trimmed@ == ts,
                forall|i: int| pos <= i < j ==> ts[i] != ' ',
            decreases m - j,
        {
            j = j + 1;
        }
        let tok = trimmed.substring_char(pos, j).to_owned();
        let ghost old_tokens = tokens@.map_values(|t: String| t@);
        tokens.push(tok);
        proof {
            assert(tokens@.map_values(|t: String| t@) =~= old_tokens.push(tok@));
            let rem = ts.skip(pos as int);
            assert(tok@ =~= rem.take(j - pos));
        }
        if j < m {
            proof {
                let rem = ts.skip(pos as int);
                assert(rem[j - pos] == ts[j as int]);
                lemma_split_at_space(rem, j - pos);
                assert(rem.skip(j - pos + 1) =~= ts.skip(j + 1));
                assert(split_spaces(ts) =~~= old_tokens.push(tok@) + split_spaces(
                    ts.skip(j + 1),
                ));
            }
            pos = j + 1;
        } else {
            proof {
                let rem = ts.skip(pos as int);
                lemma_split_no_space(rem);
                assert(tok@ =~= rem);
                assert(split_spaces(ts) =~~= old_tokens.push(tok@));
            }
            done = true;
        }
    }
    tokens
}

/// Executable test for the characters `trim_spec` strips.
fn is_trim_exec(c: char) -> (r: bool)
    ensures
        r == is_trim_char(c),
{
    c == ' ' || c == '\t' || c == '\r' || c == '\n'
}

/// Executable test for the token separator.
fn is_space_exec(c: char) -> (r: bool)
    ensures
        r == (c == ' '),
{
    c == ' '
}

/// Whether `c` is a decimal digit.
pub open spec fn is_digit(c: char) -> bool {
    48 <= c as int <= 57
}

/// The number a sequence of decimal digits denotes.
pub open spec fn digits_value(s: Seq<char>) -> int
    decreases s.len(),
{
    if s.len() == 0 {
        0
    } else {
        digits_value(s.drop_last()) * 10 + (s.last() as int - 48)
    }
}

pub open spec fn all_digits(s: Seq<char>) -> bool {
    forall|i: int| 0 <= i < s.len() ==> is_digit(#[trigger] s[i])
}

/// The movement magnitude a token denotes: an optional sign followed by
/// digits, valued if it fits an `i32`; any malformed token counts as zero.
pub open spec fn parse_step_spec(s: Seq<char>) -> int {
    let negative = s.len() > 0 && s[0] == '-';
    let body = if s.len() > 0 && (s[0] == '-' || s[0] == '+') {
        s.drop_first()
    } else {
        s
    };
    let value = if negative {
        -digits_value(body)
    } else {
        digits_value(body)
    };
    if body.len() > 0 && all_digits(body) && i32::MIN <= value <= i32::MAX {
        value
    } else {
        0
    }
}

/// Parse a movement magnitude; a non-numeric or out-of-range token parses to
/// zero, a silent no-op move.
pub fn parse_step(s: &str) -> (r: i32)
    ensures
        r as int == parse_step_spec(s@),
{
    let n = s.unicode_len();
    if n == 0 {
        return 0;
    }
    let c0 = s.get_char(0);
    let negative = c0 == '-';
    let start: usize = if c0 == '-' || c0 == '+' {
        1
    } else {
        0
    };
    let ghost body = if start == 1 {
        s@.drop_first()
    } else {
        s@
    };
    if n == start {
        return 0;
    }
    proof {
        assert(body.len() == n - start);
        assert(forall|i: int| 0 <= i < body.len() ==> body[i] == s@[i + start]);
        assert(body.take(0) =~= Seq::<char>::empty());
    }
    let mut acc: i64 = 0;
    let mut i: usize = start;
    while i < n
        invariant
            start <= i <= n,
            n == s@.len(),
            n > 0,
            start == 0 || start == 1,
            negative == (s@[0] == '-'),
            (start == 1) == (s@[0] == '-' || s@[0] == '+'),
            body == (if start == 1 {
                s@.drop_first()
            } else {
                s@
            }),
            body.len() == n - start,
            forall|k: int| start <= k < i ==> is_digit(#[trigger] s@[k]),
            ({
                let v = digits_value(body.take(i - start));
                &&& (v <= 2147483648 ==> acc == v)
                &&& (v > 2147483648 ==> acc == 3000000000)
                &&& 0 <= acc <= 3000000000
                &&& v >= 0
            }),
        decreases n - i,
    {
        let c = s.get_char(i);
        let cu = c as u32;
        if cu < 48 || cu > 57 {
            proof {
                assert(body[i - start] == s@[i as int]);
                assert(!is_digit(body[i - start]));
                assert(!all_digits(body));
                assert(parse_step_spec(s@) == 0);
            }
            return 0;
        }
        let d: i64 = cu as i64 - 48;
        proof {
            let prefix = body.take(i - start);
            let prefix1 = body.take(i - start + 1);
            assert(prefix1.drop_last() =~= prefix);
            assert(prefix1.last() == body[i - start]);
            assert(body[i - start] == s@[i as int]);
            assert(digits_value(prefix1) == digits_value(prefix) * 10 + d);
            assert(digits_value(prefix) >= 0);
        }
        let next = acc * 10 + d;
        acc = if next > 2147483648 {
            3000000000
        } else {
            next
        };
        i = i + 1;
    }
    proof {
        assert(body.take(n - start) =~= body);
        assert(forall|k: int| 0 <= k < body.len() ==> is_digit(#[trigger] body[k]));
        assert(all_digits(body));
    }
    if acc > 2147483648 {
        proof {
            assert(digits_value(body) > 2147483648);
            assert(parse_step_spec(s@) == 0);
        }
        return 0;
    }
    let value: i64 = if negative {
        -acc
    } else {
        acc
    };
    if value < -2147483648 || value > 2147483647 {
        proof {
            assert(parse_step_spec(s@) == 0);
        }
        return 0;
    }
    proof {
        assert(parse_step_spec(s@) == value);
    }
    value as i32
}

/// What a state's tick asks of the pushdown loop.
pub enum UpdateResult {
    /// Repaint the game region before the next input read.
    Redraw,
    /// Suspend the current state under a new one.
    StatePush(StateExplore),
    /// Resume the state below the current one.
    StatePop,
    /// Leave the loop at once, at any stack depth.
    Exit,
}

/// The state stack after one update result is applied: a push appends, a pop
/// removes the top, everything else leaves the stack alone.
pub open spec fn apply_stack(
    stack: Seq<StateExplore>,
    r: Option<UpdateResult>,
) -> Seq<StateExplore> {
    match r {
        Some(UpdateResult::StatePush(s)) => stack.push(s),
        Some(UpdateResult::StatePop) => if stack.len() > 0 {
            stack.drop_last()
        } else {
            stack
        },
        _ => stack,
    }
}

/// Whether the loop keeps running after one update result: an exit stops it,
/// and so does popping the last remaining state.
pub open spec fn apply_running(stack: Seq<StateExplore>, running: bool, r: Option<UpdateResult>) -> bool {
    match r {
        Some(UpdateResult::Exit) => false,
        Some(UpdateResult::StatePop) => if stack.len() <= 1 {
            false
        } else {
            running
        },
        _ => running,
    }
}

/// Whether a repaint is owed after one update result: every stack change
/// dirties the screen, and so does an explicit redraw request.
pub open spec fn apply_dirty(dirty: bool, r: Option<UpdateResult>) -> bool {
    match r {
        Some(UpdateResult::Redraw) => true,
        Some(UpdateResult::StatePush(_)) => true,
        Some(UpdateResult::StatePop) => true,
        _ => dirty,
    }
}

/// Owns the ordered stack of active states — top = currently active — the
/// redraw-dirty flag, and the running flag of the pushdown loop.
pub struct Game {
    pub state_stack: Vec<StateExplore>,
    pub is_running: bool,
    pub needs_redraw: bool,
    pub console: Console,
}

impl Game {
    pub open spec fn wf(self) -> bool {
        forall|i: int| 0 <= i < self.state_stack@.len() ==> (#[trigger] self.state_stack@[i]).wf()
    }

    /// A game over the given chunk data source: one exploration state with
    /// the player at the origin, running, with the first repaint owed.
    pub fn new(source: ChunkSource) -> (g: Game)
        requires
            source.wf(),
        ensures
            g.wf(),
            g.state_stack@.len() == 1,
            g.state_stack@[0].player.position.x == 0,
            g.state_stack@[0].player.position.y == 0,
            g.state_stack@[0].world.src() == source@,
            g.state_stack@[0].world.cache().len() == 0,
            g.state_stack@[0].last_move@.len() == 0,
            g.is_running,
            g.needs_redraw,
            g.console@.len() == 0,
    {
        let mut state_stack: Vec<StateExplore> = Vec::new();
        state_stack.push(StateExplore::new(source));
        Game { state_stack, is_running: true, needs_redraw: true, console: Console::new() }
    }

    /// Repaint the game region if a repaint is owed: clear it to the
    /// background, let the top state draw, and clear the dirty flag. The
    /// caller must flush the surface to the terminal before the next
    /// blocking input read. With no repaint owed, or no state left, nothing
    /// changes.
    pub fn prepare_frame(&mut self, surface: &mut Surface)
        requires
            old(self).wf(),
            old(surface)@.wf(),
            old(surface)@.width == GAME_AREA_WIDTH as int,
            old(surface)@.height == GAME_AREA_HEIGHT as int,
        ensures
            final(self).wf(),
            final(self).is_running == old(self).is_running,
            final(self).state_stack@.len() == old(self).state_stack@.len(),
            final(surface)@.wf(),
            final(surface)@.width == old(surface)@.width,
            final(surface)@.height == old(surface)@.height,
            if old(self).needs_redraw && old(self).state_stack@.len() > 0 {
                let top0 = old(self).state_stack@.last();
                let top1 = final(self).state_stack@.last();
                &&& !final(self).needs_redraw
                &&& forall|i: int|
                    0 <= i < old(self).state_stack@.len() - 1 ==> final(self).state_stack@[i]
                        == old(self).state_stack@[i]
                &&& top1.player == top0.player
                &&& top1.last_move == top0.last_move
                &&& top1.world.src() == top0.world.src()
                &&& top1.world.cache() == load_missing(
                    top0.world.cache(),
                    top0.world.src(),
                    window_positions(chunk_coord(top0.player.position)),
                )
                &&& final(self).console@ == old(self).console@.push(greeting_text())
                &&& forall|sx: int, sy: int|
                    0 <= sx < final(surface)@.width && 0 <= sy < final(surface)@.height
                        ==> cell_at(final(surface)@, sx, sy) == (if sx == GAME_AREA_CENTRE_X as int
                        && sy == GAME_AREA_CENTRE_Y as int {
                        '@'
                    } else {
                        world_rendered_cell(
                            top1.world.cache(),
                            chunk_coord(top0.player.position),
                            top0.player.position,
                            ' ',
                            sx,
                            sy,
                        )
                    })
            } else {
                &&& *final(self) == *old(self)
                &&& *final(surface) == *old(surface)
            },
    {
        if self.needs_redraw && self.state_stack.len() > 0 {
            surface.clear(' ');
            let mut top = self.state_stack.pop().unwrap();
            proof {
                assert(old(self).state_stack@.drop_last() =~= self.state_stack@);
            }
            top.draw(surface, &mut self.console);
            self.state_stack.push(top);
            self.needs_redraw = false;
            proof {
                assert(self.state_stack@ =~= old(self).state_stack@.drop_last().push(top));
            }
        }
    }

    /// Translate one raw input line into the turn's update result: a missing
    /// line (end of input) or the global `exit`/`quit` commands leave the
    /// loop; anything else is tokenized and dispatched to the top state's
    /// tick. A game whose stack has emptied also leaves the loop.
    pub fn handle_line(&mut self, line: Option<&String>) -> (r: Option<UpdateResult>)
        requires
            old(self).wf(),
        ensures
            final(self).wf(),
            final(self).is_running == old(self).is_running,
            final(self).needs_redraw == old(self).needs_redraw,
            final(self).console == old(self).console,
            final(self).state_stack@.len() == old(self).state_stack@.len(),
            forall|i: int|
                0 <= i < old(self).state_stack@.len() - 1 ==> final(self).state_stack@[i] == old(
                    self,
                ).state_stack@[i],
            match line {
                None => r == Some(UpdateResult::Exit) && *final(self) == *old(self),
                Some(l) => {
                    if old(self).state_stack@.len() == 0 {
                        r == Some(UpdateResult::Exit) && *final(self) == *old(self)
                    } else {
                        let toks = tokenized(l@);
                        if toks == seq![seq!['e', 'x', 'i', 't']] || toks == seq![
                            seq!['q', 'u', 'i', 't'],
                        ] {
                            r == Some(UpdateResult::Exit) && *final(self) == *old(self)
                        } else {
                            &&& tick_rel(
                                old(self).state_stack@.last(),
                                final(self).state_stack@.last(),
                                toks,
                            )
                            &&& r == tick_result_spec(toks)
                        }
                    }
                },
            },
    {
        if self.state_stack.len() == 0 {
            return Some(UpdateResult::Exit);
        }
        match line {
            None => Some(UpdateResult::Exit),
            Some(l) => {
                let tokens = tokenize(l.as_str());
                let ghost toks = tokenized(l@);
                let is_exit = tokens.len() == 1 && {
                    let t = tokens[0].as_str();
                    t.unicode_len() == 4 && t.get_char(0) == 'e' && t.get_char(1) == 'x'
                        && t.get_char(2) == 'i' && t.get_char(3) == 't'
                };
                let is_quit = tokens.len() == 1 && {
                    let t = tokens[0].as_str();
                    t.unicode_len() == 4 && t.get_char(0) == 'q' && t.get_char(1) == 'u'
                        && t.get_char(2) == 'i' && t.get_char(3) == 't'
                };
                proof {
                    assert(tokens@.map_values(|t: String| t@) == toks);
                    assert(tokens@.len() == toks.len());
                    if is_exit {
                        assert(toks[0] =~= seq!['e', 'x', 'i', 't']);
                        assert(toks =~= seq![seq!['e', 'x', 'i', 't']]);
                    }
                    if is_quit {
                        assert(toks[0] =~= seq!['q', 'u', 'i', 't']);
                        assert(toks =~= seq![seq!['q', 'u', 'i', 't']]);
                    }
                    if !is_exit && toks == seq![seq!['e', 'x', 'i', 't']] {
                        assert(toks[0] == seq!['e', 'x', 'i', 't']);
                        assert(tokens@[0]@ == toks[0]);
                        assert(false);
                    }
                    if !is_quit && toks == seq![seq!['q', 'u', 'i', 't']] {
                        assert(toks[0] == seq!['q', 'u', 'i', 't']);
                        assert(tokens@[0]@ == toks[0]);
                        assert(false);
                    }
                }
                if is_exit || is_quit {
                    return Some(UpdateResult::Exit);
                }
                let mut top = self.state_stack.pop().unwrap();
                let r = top.tick(&tokens, &mut self.console);
                self.state_stack.push(top);
                proof {
                    assert(self.state_stack@ =~= old(self).state_stack@.drop_last().push(top));
                }
                r
            },
        }
    }

    /// Apply one tick's update result to the stack and the two flags.
    pub fn apply_result(&mut self, result: Option<UpdateResult>)
        requires
            old(self).wf(),
            match result {
                Some(UpdateResult::StatePush(s)) => s.wf(),
                _ => true,
            },
        ensures
            final(self).wf(),
            final(self).state_stack@ == apply_stack(old(self).state_stack@, result),
            final(self).is_running == apply_running(
                old(self).state_stack@,
                old(self).is_running,
                result,
            ),
            final(self).needs_redraw == apply_dirty(old(self).needs_redraw, result),
            final(self).console == old(self).console,
    {
        match result {
            Some(UpdateResult::Redraw) => {
                self.needs_redraw = true;
            },
            Some(UpdateResult::StatePush(state)) => {
                self.state_stack.push(state);
                self.needs_redraw = true;
            },
            Some(UpdateResult::StatePop) => {
                self.state_stack.pop();
                if self.state_stack.len() == 0 {
                    self.is_running = false;
                }
                self.needs_redraw = true;
            },
            Some(UpdateResult::Exit) => {
                self.is_running = false;
            },
            None => {},
        }
    }
}

/// The pushdown loop returns where it left: pushing a state and then at once
/// popping it restores the prior stack, with a repaint owed so that the
/// prior state's draw runs before the next input read; and popping the last
/// remaining state stops the loop.
pub proof fn lemma_push_pop_returns(
    stack: Seq<StateExplore>,
    running: bool,
    dirty: bool,
    s: StateExplore,
)
    ensures
        apply_stack(apply_stack(stack, Some(UpdateResult::StatePush(s))), Some(
            UpdateResult::StatePop,
        )) == stack,
        apply_dirty(apply_dirty(dirty, Some(UpdateResult::StatePush(s))), Some(
            UpdateResult::StatePop,
        )),
        stack.len() == 1 ==> !apply_running(stack, running, Some(UpdateResult::StatePop)),
{
    assert(apply_stack(stack, Some(UpdateResult::StatePush(s))) == stack.push(s));
    assert(stack.push(s).drop_last() =~= stack);
}

} // verus!
