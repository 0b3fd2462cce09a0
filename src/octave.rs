//! The script builder: an append-only list of statements and the name of the
//! interpreter that runs them. Every operation returns a new builder and
//! leaves the receiver as it was.
use vstd::prelude::*;

use crate::literal::{int_text, joined_ints, matrix_text, push_char, push_int, push_joined, vector_text};
use crate::matrix::{column_of, Matrix};
use crate::template::{substitute_bulk, substitute_positional, subst_bulk, subst_positional, texts_of};

verus! {

/// First line of every script: it makes the interpreter run the file as a
/// script rather than as a function file.
pub open spec fn preamble() -> Seq<char> {
    seq!['1', ';', '\n']
}

/// The statements in order, each followed by `;` and a newline.
pub open spec fn statements_text(st: Seq<Seq<char>>) -> Seq<char>
    decreases st.len(),
{
    if st.len() == 0 {
        seq![]
    } else {
        statements_text(st.drop_last()) + st.last() + seq![';', '\n']
    }
}

/// The text of a script with statements `st`.
pub open spec fn script_text(st: Seq<Seq<char>>) -> Seq<char> {
    preamble() + statements_text(st)
}

/// The interpreter that a new builder names.
pub open spec fn default_interpreter() -> Seq<char> {
    seq!['o', 'c', 't', 'a', 'v', 'e']
}

/// The values' display texts, one per index.
pub open spec fn value_texts(v: Seq<i64>) -> Seq<Seq<char>> {
    v.map_values(|x: i64| int_text(x as int))
}

/// The vector literal of each of the first `n` columns.
pub open spec fn column_texts(rows: Seq<Seq<i64>>, n: nat) -> Seq<Seq<char>> {
    Seq::new(n, |c: int| vector_text(column_of(rows, c)))
}

pub struct OctaveScriptBuilder {
    buf: Vec<String>,
    octave_bin: String,
}

impl OctaveScriptBuilder {
    /// The statements added so far, in order.
    pub closed spec fn statements(&self) -> Seq<Seq<char>> {
        texts_of(self.buf@)
    }

    /// The interpreter the script is run with.
    pub closed spec fn interpreter(&self) -> Seq<char> {
        self.octave_bin@
    }

    fn copy_statements(&self) -> (r: Vec<String>)
        ensures
            texts_of(r@) == self.statements(),
    {
        let mut r: Vec<String> = Vec::new();
        let mut i: usize = 0;
        while i < self.buf.len()
            invariant
                i <= self.buf@.len(),
                texts_of(r@) == texts_of(self.buf@.subrange(0, i as int)),
            decreases self.buf@.len() - i,
        {
            let ghost prev = r@;
            r.push(self.buf[i].clone());
            assert(texts_of(r@) =~= texts_of(prev).push(self.buf@[i as int]@));
            i = i + 1;
            assert(texts_of(r@) =~= texts_of(self.buf@.subrange(0, i as int)));
        }
        assert(self.buf@.subrange(0, i as int) =~= self.buf@);
        r
    }

    /// Appends `s` as one more statement, without substitution.
    pub fn add(&self, s: &str) -> (r: OctaveScriptBuilder)
        ensures
            r.statements() == self.statements().push(s@),
            r.interpreter() == self.interpreter(),
    {
        let mut buf = self.copy_statements();
        buf.push(String::from_str(s));
        let r = OctaveScriptBuilder { buf, octave_bin: self.octave_bin.clone() };
        assert(r.statements() =~= self.statements().push(s@));
        r
    }

    /// The display texts of `v`, comma-separated.
    pub fn join(&self, v: &[i64]) -> (r: String)
        ensures
            r@ == joined_ints(v@),
    {
        let mut s = String::new();
        push_joined(&mut s, v);
        assert(s@ =~= joined_ints(v@));
        s
    }

    /// The vector literal of `v`: `[v0,v1,...]`.
    pub fn to_vec(&self, v: &[i64]) -> (r: String)
        ensures
            r@ == vector_text(v@),
    {
        let mut s = String::new();
        push_char(&mut s, '[');
        push_joined(&mut s, v);
        push_char(&mut s, ']');
        assert(s@ =~= vector_text(v@));
        s
    }

    /// Appends `s` with each `$i` naming a column of `m` replaced by that
    /// column's vector literal.
    pub fn add_columns(&self, s: &str, m: &Matrix) -> (r: OctaveScriptBuilder)
        ensures
            r.statements() == self.statements().push(subst_positional(s@, column_texts(m@, m.col_count()))),
            r.interpreter() == self.interpreter(),
    {
        let n = m.cols();
        let mut reps: Vec<String> = Vec::new();
        let mut c: usize = 0;
        while c < n
            invariant
                n == m.col_count(),
                c <= n,
                texts_of(reps@) == column_texts(m@, m.col_count()).subrange(0, c as int),
            decreases n - c,
        {
            let col = m.column(c);
            let ghost prev = reps@;
            let lit = self.to_vec(col.as_slice());
            reps.push(lit);
            assert(texts_of(reps@) =~= texts_of(prev).push(lit@));
            c = c + 1;
            assert(texts_of(reps@) =~= column_texts(m@, m.col_count()).subrange(0, c as int));
        }
        assert(column_texts(m@, m.col_count()).subrange(0, c as int) =~= column_texts(m@, m.col_count()));
        let t = substitute_positional(s, &reps);
        self.add(t.as_str())
    }

    /// Appends `s` with each `$$` replaced by the vector literal of `vals`.
    pub fn add_vector(&self, s: &str, vals: &[i64]) -> (r: OctaveScriptBuilder)
        ensures
            r.statements() == self.statements().push(subst_bulk(s@, vector_text(vals@))),
            r.interpreter() == self.interpreter(),
    {
        let v = self.to_vec(vals);
        let t = substitute_bulk(s, v.as_str());
        self.add(t.as_str())
    }

    /// Appends `s` with each `$$` replaced by the vector literal of the
    /// collected values `vals`.
    pub fn add_vector_iter(&self, s: &str, vals: Vec<i64>) -> (r: OctaveScriptBuilder)
        ensures
            r.statements() == self.statements().push(subst_bulk(s@, vector_text(vals@))),
            r.interpreter() == self.interpreter(),
    {
        self.add_vector(s, vals.as_slice())
    }

    /// Appends `t` with each `$$` replaced by the matrix literal of `m`.
    pub fn add_matrix(&self, t: &str, m: &Matrix) -> (r: OctaveScriptBuilder)
        ensures
            r.statements() == self.statements().push(subst_bulk(t@, matrix_text(m@))),
            r.interpreter() == self.interpreter(),
    {
        let ghost rows = m@.map_values(|r: Seq<i64>| joined_ints(r));
        let mut s = String::new();
        push_char(&mut s, '[');
        let nr = m.rows();
        let mut idx: usize = 0;
        while idx < nr
            invariant
                nr == m@.len(),
                rows == m@.map_values(|r: Seq<i64>| joined_ints(r)),
                idx <= nr,
                s@ == seq!['['] + crate::literal::join_texts(rows.subrange(0, idx as int), ';'),
            decreases nr - idx,
        {
            if idx > 0 {
                push_char(&mut s, ';');
            }
            push_joined(&mut s, m.row(idx));
            proof {
                assert(rows.subrange(0, idx + 1) =~= rows.subrange(0, idx as int).push(rows[idx as int]));
                crate::literal::lemma_join_push(rows.subrange(0, idx as int), rows[idx as int], ';');
            }
            idx = idx + 1;
            assert(s@ =~= seq!['['] + crate::literal::join_texts(rows.subrange(0, idx as int), ';'));
        }
        push_char(&mut s, ']');
        assert(rows.subrange(0, idx as int) =~= rows);
        assert(s@ =~= matrix_text(m@));
        let e = substitute_bulk(t, s.as_str());
        self.add(e.as_str())
    }

    /// Appends `s` with each `$i` naming an index of `vals` replaced by the
    /// display text of `vals[i - 1]`.
    pub fn add_values(&self, s: &str, vals: &[i64]) -> (r: OctaveScriptBuilder)
        ensures
            r.statements() == self.statements().push(subst_positional(s@, value_texts(vals@))),
            r.interpreter() == self.interpreter(),
    {
        let n = vals.len();
        let mut reps: Vec<String> = Vec::new();
        let mut i: usize = 0;
        while i < n
            invariant
                n == vals@.len(),
                i <= n,
                texts_of(reps@) == value_texts(vals@).subrange(0, i as int),
            decreases n - i,
        {
            let mut v = String::new();
            push_int(&mut v, vals[i]);
            let ghost prev = reps@;
            reps.push(v);
            assert(texts_of(reps@) =~= texts_of(prev).push(v@));
            i = i + 1;
            assert(texts_of(reps@) =~= value_texts(vals@).subrange(0, i as int));
        }
        assert(value_texts(vals@).subrange(0, i as int) =~= value_texts(vals@));
        let t = substitute_positional(s, &reps);
        self.add(t.as_str())
    }

    /// The same statements, run with the interpreter `path`.
    pub fn octave_bin(&self, path: &str) -> (r: OctaveScriptBuilder)
        ensures
            r.statements() == self.statements(),
            r.interpreter() == path@,
    {
        OctaveScriptBuilder { buf: self.copy_statements(), octave_bin: String::from_str(path) }
    }

    /// The script text: the preamble line, then each statement followed by
    /// `;` and a newline.
    pub fn to_string(&self) -> (r: String)
        ensures
            r@ == script_text(self.statements()),
    {
        let mut s = String::from_str("1;\n");
        proof {
            reveal_strlit("1;\n");
        }
        let mut j: usize = 0;
        while j < self.buf.len()
            invariant
                j <= self.buf@.len(),
                s@ == script_text(self.statements().subrange(0, j as int)),
            decreases self.buf@.len() - j,
        {
            s.append(self.buf[j].as_str());
            s.append(";\n");
            proof {
                reveal_strlit(";\n");
                let st = self.statements().subrange(0, j + 1);
                assert(st.drop_last() =~= self.statements().subrange(0, j as int));
            }
            j = j + 1;
            assert(s@ =~= script_text(self.statements().subrange(0, j as int)));
        }
        assert(self.statements().subrange(0, j as int) =~= self.statements());
        s
    }

    /// The shell command that runs the script file `filename`: the
    /// interpreter, a space, then the file name.
    pub fn command_line(&self, filename: &str) -> (r: String)
        ensures
            r@ == self.interpreter() + seq![' '] + filename@,
    {
        let mut c = self.octave_bin.clone();
        push_char(&mut c, ' ');
        c.append(filename);
        assert(c@ =~= self.interpreter() + seq![' '] + filename@);
        c
    }
}

/// A builder without statements that runs its script with `octave`.
pub fn builder() -> (r: OctaveScriptBuilder)
    ensures
        r.statements() == Seq::<Seq<char>>::empty(),
        r.interpreter() == default_interpreter(),
{
    let r = OctaveScriptBuilder { buf: Vec::new(), octave_bin: String::from_str("octave") };
    proof {
        reveal_strlit("octave");
    }
    assert(r.statements() =~= Seq::<Seq<char>>::empty());
    r
}

/// Adding a statement extends the script: the text of the longer builder is
/// the text of the shorter one followed by the new statement and its
/// terminator, so the shorter builder's text is a prefix that stays as it was.
pub proof fn lemma_add_extends_script(st: Seq<Seq<char>>, s: Seq<char>)
    ensures
        script_text(st.push(s)) == script_text(st) + s + seq![';', '\n'],
{
    assert(st.push(s).drop_last() =~= st);
    assert(script_text(st.push(s)) =~= script_text(st) + s + seq![';', '\n']);
}

} // verus!
