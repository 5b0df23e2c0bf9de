//! An edit-command algebra with undo and redo.
//!
//! A command inserts, deletes or replaces a span of text.  Every command
//! has an exact reverse, and the central law — proved in
//! [`lemma_reverse_round_trip`] — says that applying a command and then
//! its reverse restores the text, whenever the command fits the text it
//! is applied to.  [`TextEditor`] builds on that law: it keeps the
//! history and redo stacks well-formed, so undo provably restores the
//! previous text and redo provably re-applies the undone command.

use vstd::prelude::*;

verus! {

/// One edit.  Text is a sequence of characters; a deletion names the
/// text it removes so that it can be reversed.
#[derive(Debug)]
pub enum EditorCommand {
    /// Insert `text` so that it starts at `position`.
    Insert { position: usize, text: Vec<char> },
    /// Delete exactly `text`, which starts at `position`.
    Delete { position: usize, text: Vec<char> },
    /// Replace `old` — which starts at `position` — with `new`.
    Replace { position: usize, old: Vec<char>, new: Vec<char> },
}

/// The mathematical view of an edit.
pub enum EditSpec {
    Insert { position: int, text: Seq<char> },
    Delete { position: int, text: Seq<char> },
    Replace { position: int, old: Seq<char>, new: Seq<char> },
}

impl View for EditorCommand {
    type V = EditSpec;

    open spec fn view(&self) -> EditSpec {
        match self {
            EditorCommand::Insert { position, text } => EditSpec::Insert {
                position: *position as int,
                text: text@,
            },
            EditorCommand::Delete { position, text } => EditSpec::Delete {
                position: *position as int,
                text: text@,
            },
            EditorCommand::Replace { position, old, new } => EditSpec::Replace {
                position: *position as int,
                old: old@,
                new: new@,
            },
        }
    }
}

/// What applying a command yields, as a pure function of the text.
pub open spec fn apply_spec(c: EditSpec, s: Seq<char>) -> Seq<char> {
    match c {
        EditSpec::Insert { position, text } => s.take(position) + text + s.skip(position),
        EditSpec::Delete { position, text } => s.take(position) + s.skip(
            position + text.len() as int,
        ),
        EditSpec::Replace { position, old, new } => s.take(position) + new + s.skip(
            position + old.len() as int,
        ),
    }
}

/// The positions a command touches lie inside the text.
pub open spec fn in_bounds(c: EditSpec, s: Seq<char>) -> bool {
    match c {
        EditSpec::Insert { position, text } => 0 <= position <= s.len(),
        EditSpec::Delete { position, text } => 0 <= position && position + text.len() <= s.len(),
        EditSpec::Replace { position, old, new } => 0 <= position && position + old.len()
            <= s.len(),
    }
}

/// The command fits the text: it is in bounds and the text it claims to
/// remove really stands at its position.
pub open spec fn fits(c: EditSpec, s: Seq<char>) -> bool {
    &&& in_bounds(c, s)
    &&& match c {
        EditSpec::Insert { position, text } => true,
        EditSpec::Delete { position, text } => s.subrange(position, position + text.len() as int)
            == text,
        EditSpec::Replace { position, old, new } => s.subrange(
            position,
            position + old.len() as int,
        ) == old,
    }
}

/// The reverse of an edit: insertion and deletion swap, a replacement
/// swaps its texts.
pub open spec fn reverse_spec(c: EditSpec) -> EditSpec {
    match c {
        EditSpec::Insert { position, text } => EditSpec::Delete { position, text },
        EditSpec::Delete { position, text } => EditSpec::Insert { position, text },
        EditSpec::Replace { position, old, new } => EditSpec::Replace {
            position,
            old: new,
            new: old,
        },
    }
}

/// The central law of the algebra: a command that fits a text is undone
/// exactly by its reverse.  The reverse fits the edited text, and
/// applying it restores the original.
pub proof fn lemma_reverse_round_trip(c: EditSpec, s: Seq<char>)
    requires
        fits(c, s),
    ensures
        fits(reverse_spec(c), apply_spec(c, s)),
        apply_spec(reverse_spec(c), apply_spec(c, s)) == s,
{
    match c {
        EditSpec::Insert { position: p, text } => {
            let s1 = apply_spec(c, s);
            assert(s1.subrange(p, p + text.len() as int) =~= text);
            assert(s1.take(p) =~= s.take(p));
            assert(s1.skip(p + text.len() as int) =~= s.skip(p));
            assert(apply_spec(reverse_spec(c), s1) =~= s);
        },
        EditSpec::Delete { position: p, text } => {
            let s1 = apply_spec(c, s);
            assert(s1.take(p) =~= s.take(p));
            assert(s1.skip(p) =~= s.skip(p + text.len() as int));
            assert(apply_spec(reverse_spec(c), s1) =~= s);
        },
        EditSpec::Replace { position: p, old, new } => {
            let s1 = apply_spec(c, s);
            assert(s1.subrange(p, p + new.len() as int) =~= new);
            assert(s1.take(p) =~= s.take(p));
            assert(s1.skip(p + new.len() as int) =~= s.skip(p + old.len() as int));
            assert(apply_spec(reverse_spec(c), s1) =~= s);
        },
    }
}

/// An exact copy of a character vector.
fn copy_chars(v: &Vec<char>) -> (r: Vec<char>)
    ensures
        r@ == v@,
{
    let mut r: Vec<char> = Vec::new();
    let mut k: usize = 0;
    while k < v.len()
        invariant
            k <= v@.len(),
            r@ == v@.take(k as int),
        decreases v@.len() - k,
    {
        r.push(v[k]);
        proof {
            assert(r@ =~= v@.take(k as int + 1));
        }
        k = k + 1;
    }
    proof {
        assert(v@.take(v@.len() as int) =~= v@);
    }
    r
}

/// `v` with `del` characters at `pos` replaced by `ins`.
fn splice(v: &Vec<char>, pos: usize, del: usize, ins: &Vec<char>) -> (r: Vec<char>)
    requires
        pos + del <= v@.len(),
    ensures
        r@ == v@.take(pos as int) + ins@ + v@.skip(pos as int + del as int),
{
    let total = v.len();
    let mut r: Vec<char> = Vec::new();
    let mut k: usize = 0;
    while k < pos
        invariant
            k <= pos,
            total == v@.len(),
            pos + del <= v@.len(),
            r@ == v@.take(k as int),
        decreases pos - k,
    {
        r.push(v[k]);
        proof {
            assert(r@ =~= v@.take(k as int + 1));
        }
        k = k + 1;
    }
    let mut j: usize = 0;
    while j < ins.len()
        invariant
            j <= ins@.len(),
            pos + del <= v@.len(),
            r@ == v@.take(pos as int) + ins@.take(j as int),
        decreases ins@.len() - j,
    {
        r.push(ins[j]);
        proof {
            assert(r@ =~= v@.take(pos as int) + ins@.take(j as int + 1));
        }
        j = j + 1;
    }
    proof {
        assert(ins@.take(ins@.len() as int) =~= ins@);
    }
    proof {
        assert(pos + del <= total);
    }
    let mut t: usize = pos + del;
    while t < v.len()
        invariant
            pos + del <= t <= v@.len(),
            r@ == v@.take(pos as int) + ins@ + v@.subrange(pos as int + del as int, t as int),
        decreases v@.len() - t,
    {
        r.push(v[t]);
        proof {
            assert(r@ =~= v@.take(pos as int) + ins@ + v@.subrange(
                pos as int + del as int,
                t as int + 1,
            ));
        }
        t = t + 1;
    }
    proof {
        assert(v@.subrange(pos as int + del as int, v@.len() as int) =~= v@.skip(
            pos as int + del as int,
        ));
    }
    r
}

impl EditorCommand {
    /// Performs this edit on the text.
    pub fn apply(&self, content: &mut Vec<char>)
        requires
            in_bounds(self@, old(content)@),
        ensures
            final(content)@ == apply_spec(self@, old(content)@),
    {
        match self {
            EditorCommand::Insert { position, text } => {
                *content = splice(content, *position, 0, text);
            },
            EditorCommand::Delete { position, text } => {
                let empty: Vec<char> = Vec::new();
                *content = splice(content, *position, text.len(), &empty);
                proof {
                    assert(old(content)@.take(*position as int) + Seq::<char>::empty() + old(
                        content,
                    )@.skip(*position as int + text@.len() as int) =~= apply_spec(
                        self@,
                        old(content)@,
                    ));
                }
            },
            EditorCommand::Replace { position, old: prev, new } => {
                *content = splice(content, *position, prev.len(), new);
            },
        }
    }

    /// Builds the command that undoes this one.
    pub fn reverse(&self) -> (r: EditorCommand)
        ensures
            r@ == reverse_spec(self@),
    {
        match self {
            EditorCommand::Insert { position, text } => EditorCommand::Delete {
                position: *position,
                text: copy_chars(text),
            },
            EditorCommand::Delete { position, text } => EditorCommand::Insert {
                position: *position,
                text: copy_chars(text),
            },
            EditorCommand::Replace { position, old: prev, new } => EditorCommand::Replace {
                position: *position,
                old: copy_chars(new),
                new: copy_chars(prev),
            },
        }
    }
}


/// From an empty text, the result of applying a history of commands in
/// order — defined only while each command fits the text it meets.
pub open spec fn replay(h: Seq<EditorCommand>) -> Option<Seq<char>>
    decreases h.len(),
{
    if h.len() == 0 {
        Some(Seq::empty())
    } else {
        match replay(h.drop_last()) {
            Some(s) => if fits(h.last()@, s) {
                Some(apply_spec(h.last()@, s))
            } else {
                None
            },
            None => None,
        }
    }
}

/// The redo pile fits the current text: its top command fits now, the
/// next one fits the text after redoing the top, and so on down.
pub open spec fn redo_chain(stack: Seq<EditorCommand>, current: Seq<char>) -> bool
    decreases stack.len(),
{
    stack.len() == 0 || (fits(stack.last()@, current) && redo_chain(
        stack.drop_last(),
        apply_spec(stack.last()@, current),
    ))
}

/// A command-driven editor whose undo and redo are correct by
/// construction: the text is always exactly the replay of the history,
/// so undoing provably restores the previous text, and every command on
/// the redo pile provably fits where it will be re-applied.
pub struct TextEditor {
    content: Vec<char>,
    history: Vec<EditorCommand>,
    undo_stack: Vec<EditorCommand>,
}

impl TextEditor {
    /// The current text.
    pub closed spec fn spec_content(self) -> Seq<char> {
        self.content@
    }

    /// The commands applied so far, oldest first.
    pub closed spec fn spec_history(self) -> Seq<EditorCommand> {
        self.history@
    }

    /// The undone commands available for redo, next-to-redo last.
    pub closed spec fn spec_redo(self) -> Seq<EditorCommand> {
        self.undo_stack@
    }

    /// The editor's invariant: the text is the replay of the history,
    /// and the redo pile fits the current text.
    pub open spec fn wf(self) -> bool {
        &&& replay(self.spec_history()) == Some(self.spec_content())
        &&& redo_chain(self.spec_redo(), self.spec_content())
    }

    /// An empty editor.
    pub fn new() -> (e: TextEditor)
        ensures
            e.wf(),
            e.spec_content() == Seq::<char>::empty(),
            e.spec_history() == Seq::<EditorCommand>::empty(),
            e.spec_redo() == Seq::<EditorCommand>::empty(),
    {
        TextEditor { content: Vec::new(), history: Vec::new(), undo_stack: Vec::new() }
    }

    /// The current text, as an owned string.
    pub fn content(&self) -> (s: String)
        ensures
            s@ == self.spec_content(),
    {
        let mut s = String::new();
        let mut k: usize = 0;
        while k < self.content.len()
            invariant
                k <= self.content@.len(),
                s@ == self.content@.take(k as int),
            decreases self.content@.len() - k,
        {
            s.push(self.content[k]);
            proof {
                assert(s@ =~= self.content@.take(k as int + 1));
            }
            k = k + 1;
        }
        proof {
            assert(self.content@.take(self.content@.len() as int) =~= self.content@);
        }
        s
    }

    /// Performs a command and records it; anything undone but not
    /// redone is forgotten.  The command must fit the current text — in
    /// particular a deletion must name the text it removes, else undo
    /// could not restore it.
    pub fn execute(&mut self, cmd: EditorCommand)
        requires
            old(self).wf(),
            fits(cmd@, old(self).spec_content()),
        ensures
            final(self).wf(),
            final(self).spec_content() == apply_spec(cmd@, old(self).spec_content()),
            final(self).spec_history() == old(self).spec_history().push(cmd),
            final(self).spec_redo() == Seq::<EditorCommand>::empty(),
    {
        cmd.apply(&mut self.content);
        self.history.push(cmd);
        self.undo_stack = Vec::new();
        proof {
            assert(self.history@.drop_last() =~= old(self).spec_history());
        }
    }

    /// Takes back the most recent command, restoring the text it was
    /// applied to, and makes it available for redo.  With an empty
    /// history nothing changes.
    pub fn undo(&mut self)
        requires
            old(self).wf(),
        ensures
            final(self).wf(),
            old(self).spec_history().len() == 0 ==> *final(self) == *old(self),
            old(self).spec_history().len() > 0 ==> {
                &&& final(self).spec_history() == old(self).spec_history().drop_last()
                &&& final(self).spec_redo() == old(self).spec_redo().push(
                    old(self).spec_history().last(),
                )
                &&& replay(old(self).spec_history().drop_last()) == Some(
                    final(self).spec_content(),
                )
                &&& final(self).spec_content() == apply_spec(
                    reverse_spec(old(self).spec_history().last()@),
                    old(self).spec_content(),
                )
            },
    {
        if self.history.len() == 0 {
            return ;
        }
        let ghost h0 = self.history@;
        let cmd = match self.history.pop() {
            Some(c) => c,
            None => {
                return ;
            },
        };
        let ghost s_prev = replay(h0.drop_last())->Some_0;
        proof {
            assert(self.history@ =~= h0.drop_last());
            assert(fits(cmd@, s_prev));
            assert(self.content@ == apply_spec(cmd@, s_prev));
            lemma_reverse_round_trip(cmd@, s_prev);
        }
        let rev = cmd.reverse();
        rev.apply(&mut self.content);
        self.undo_stack.push(cmd);
        proof {
            assert(self.content@ == s_prev);
            assert(self.undo_stack@.drop_last() =~= old(self).spec_redo());
            assert(self.undo_stack@.last() == cmd);
            assert(apply_spec(cmd@, s_prev) == old(self).spec_content());
            assert(redo_chain(self.undo_stack@, self.content@));
        }
    }

    /// Re-applies the most recently undone command.  With nothing to
    /// redo nothing changes.
    pub fn redo(&mut self)
        requires
            old(self).wf(),
        ensures
            final(self).wf(),
            old(self).spec_redo().len() == 0 ==> *final(self) == *old(self),
            old(self).spec_redo().len() > 0 ==> {
                &&& final(self).spec_redo() == old(self).spec_redo().drop_last()
                &&& final(self).spec_history() == old(self).spec_history().push(
                    old(self).spec_redo().last(),
                )
                &&& final(self).spec_content() == apply_spec(
                    old(self).spec_redo().last()@,
                    old(self).spec_content(),
                )
            },
    {
        if self.undo_stack.len() == 0 {
            return ;
        }
        let ghost r0 = self.undo_stack@;
        let cmd = match self.undo_stack.pop() {
            Some(c) => c,
            None => {
                return ;
            },
        };
        proof {
            assert(self.undo_stack@ =~= r0.drop_last());
            assert(fits(cmd@, self.content@));
        }
        cmd.apply(&mut self.content);
        self.history.push(cmd);
        proof {
            assert(self.history@.drop_last() =~= old(self).spec_history());
        }
    }
}

} // verus!
