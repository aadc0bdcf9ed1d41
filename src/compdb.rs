//! Compilation-database records: one JSON object per compiled source.
use vstd::prelude::*;
use crate::config::{ArtifactKind, BuildConfig, TargetConfig, views, lemma_views_push};
use crate::compile::dep_include_flags;
use crate::link::{append_include_flags, include_flags};
use crate::source::Src;
use crate::target::Target;
use crate::text::same_text;

verus! {

/// The pieces of a text between backticks, as `split('`')` gives them.
pub open spec fn backtick_pieces(s: Seq<char>) -> Seq<Seq<char>>
    decreases s.len(),
{
    if s.len() == 0 {
        seq![Seq::empty()]
    } else {
        let p = backtick_pieces(s.drop_last());
        if s.last() == '`' {
            p.push(Seq::empty())
        } else {
            p.update(p.len() - 1, p.last().push(s.last()))
        }
    }
}

proof fn lemma_backtick_pieces_nonempty(s: Seq<char>)
    ensures
        backtick_pieces(s).len() >= 1,
    decreases s.len(),
{
    if s.len() > 0 {
        lemma_backtick_pieces_nonempty(s.drop_last());
    }
}

/// The pieces outside backticks, each followed by a space.
pub open spec fn plain_flags(ps: Seq<Seq<char>>) -> Seq<char>
    decreases ps.len(),
{
    if ps.len() == 0 {
        Seq::empty()
    } else if (ps.len() - 1) % 2 == 0 {
        plain_flags(ps.drop_last()) + ps.last() + " "@
    } else {
        plain_flags(ps.drop_last())
    }
}

/// The pieces inside backticks: commands whose output stands for them.
pub open spec fn subcommands(ps: Seq<Seq<char>>) -> Seq<Seq<char>>
    decreases ps.len(),
{
    if ps.len() == 0 {
        Seq::empty()
    } else if (ps.len() - 1) % 2 == 1 {
        subcommands(ps.drop_last()).push(ps.last())
    } else {
        subcommands(ps.drop_last())
    }
}

/// Splits compiler flags into the backtick-quoted commands and the rest.
pub fn split_cflags(cflags: &str) -> (r: (Vec<String>, String))
    ensures
        views(r.0@) == subcommands(backtick_pieces(cflags@)),
        r.1@ == plain_flags(backtick_pieces(cflags@)),
{
    let n = cflags.unicode_len();
    let mut subs: Vec<String> = Vec::new();
    let mut plain = String::new();
    let mut cur = String::new();
    let mut count: usize = 0;
    let ghost mut done: Seq<Seq<char>> = Seq::empty();
    let mut i: usize = 0;
    assert(cflags@.subrange(0, 0) =~= Seq::<char>::empty());
    assert(backtick_pieces(Seq::<char>::empty()) =~= done.push(cur@));
    while i < n
        invariant
            n == cflags@.len(),
            i <= n,
            count == done.len(),
            count <= i,
            backtick_pieces(cflags@.subrange(0, i as int)) == done.push(cur@),
            views(subs@) == subcommands(done),
            plain@ == plain_flags(done),
        decreases n - i,
    {
        let c = cflags.get_char(i);
        let ghost pre = cflags@.subrange(0, i as int);
        assert(cflags@.subrange(0, i + 1).drop_last() =~= pre);
        if c == '`' {
            let ghost nd = done.push(cur@);
            assert(nd.drop_last() =~= done);
            if count % 2 == 1 {
                let piece = cur;
                proof {
                    lemma_views_push(subs@, piece);
                }
                subs.push(piece);
            } else {
                plain.append(cur.as_str());
                plain.append(" ");
            }
            cur = String::new();
            proof {
                done = nd;
            }
            count = count + 1;
            assert(backtick_pieces(cflags@.subrange(0, i + 1)) =~= done.push(cur@));
        } else {
            let ghost old_cur = cur@;
            let ghost p = done.push(old_cur);
            cur.append(cflags.substring_char(i, i + 1));
            assert(cflags@.subrange(i as int, i + 1) =~= seq![c]);
            assert(cur@ =~= old_cur.push(c));
            assert(p.last() == old_cur);
            assert(p.update(p.len() - 1, old_cur.push(c)) =~= done.push(cur@));
            assert(backtick_pieces(cflags@.subrange(0, i + 1)) =~= done.push(cur@));
        }
        i = i + 1;
    }
    assert(cflags@.subrange(0, n as int) =~= cflags@);
    let ghost all = done.push(cur@);
    assert(all.drop_last() =~= done);
    if count % 2 == 1 {
        let piece = cur;
        proof {
            lemma_views_push(subs@, piece);
        }
        subs.push(piece);
    } else {
        plain.append(cur.as_str());
        plain.append(" ");
    }
    (subs, plain)
}

/// A text with each newline turned into a space.
pub open spec fn newlines_to_spaces(s: Seq<char>) -> Seq<char> {
    Seq::new(s.len(), |i: int| if s[i] == '\n' { ' ' } else { s[i] })
}

/// The outputs of the subcommands, newlines made spaces, one after the other.
pub open spec fn joined_outputs(outs: Seq<Seq<char>>) -> Seq<char>
    decreases outs.len(),
{
    if outs.len() == 0 {
        Seq::empty()
    } else {
        joined_outputs(outs.drop_last()) + newlines_to_spaces(outs.last())
    }
}

/// The generic driver name that a record uses for a supported compiler.
pub open spec fn driver_family(compiler: Seq<char>) -> Option<Seq<char>> {
    if compiler == "clang++"@ || compiler == "g++"@ {
        Some("c++"@)
    } else if compiler == "clang"@ || compiler == "gcc"@ {
        Some("cc"@)
    } else {
        None
    }
}

/// The record of one compiled source.
pub open spec fn cc_record(
    family: Seq<char>,
    src: Src,
    cfg: TargetConfig,
    deps: Seq<Target>,
    outs: Seq<Seq<char>>,
    cwd: Seq<char>,
) -> Seq<char> {
    "{\n"@ + "\t\"command\": \""@ + family + " -c -o "@ + src.obj_name@ + include_flags(cfg.include_dir@)
        + dep_include_flags(deps) + " "@ + plain_flags(backtick_pieces(cfg.cflags@)) + joined_outputs(outs) + (
    if cfg.kind == ArtifactKind::SharedLibrary {
        "-fPIC "@
    } else {
        Seq::empty()
    }) + src.path@ + "\",\n"@ + "\t\"directory\": \""@ + cwd + "\",\n"@ + "\t\"file\": \""@ + cwd + "/"@ + src.path@
        + "\""@ + "\n}"@
}

fn append_newlines_to_spaces(cmd: &mut String, s: &str)
    ensures
        final(cmd)@ == old(cmd)@ + newlines_to_spaces(s@),
{
    let ghost start = cmd@;
    let n = s.unicode_len();
    let mut i: usize = 0;
    assert(start + newlines_to_spaces(s@).subrange(0, 0) =~= start);
    while i < n
        invariant
            n == s@.len(),
            i <= n,
            cmd@ == start + newlines_to_spaces(s@).subrange(0, i as int),
        decreases n - i,
    {
        if s.get_char(i) == '\n' {
            cmd.append(" ");
        } else {
            cmd.append(s.substring_char(i, i + 1));
        }
        proof {
            reveal_strlit(" ");
        }
        i = i + 1;
        assert(cmd@ =~= start + newlines_to_spaces(s@).subrange(0, i as int));
    }
    assert(newlines_to_spaces(s@).subrange(0, n as int) =~= newlines_to_spaces(s@));
}

impl Target {
    /// The compilation-database record of one source of this target, given
    /// the outputs of the backtick-quoted commands in its flags and the
    /// working directory. `None` when the compiler is not one of clang++,
    /// g++, clang and gcc.
    pub fn gen_cc(&self, build_config: &BuildConfig, src: &Src, outputs: &Vec<String>, cwd: &str) -> (r: Option<String>)
        ensures
            match driver_family(build_config.compiler@) {
                None => r.is_none(),
                Some(f) => r matches Some(s) && s@ == cc_record(f, *src, self.config, self.dependant_libs@, views(outputs@), cwd@),
            },
    {
        let c = build_config.compiler.as_str();
        let family = if same_text(c, "clang++") || same_text(c, "g++") {
            "c++"
        } else if same_text(c, "clang") || same_text(c, "gcc") {
            "cc"
        } else {
            return None;
        };
        proof {
            reveal_strlit("c++");
            reveal_strlit("cc");
        }
        let mut cc = String::from_str("{\n");
        cc.append("\t\"command\": \"");
        cc.append(family);
        cc.append(" -c -o ");
        cc.append(src.obj_name.as_str());
        append_include_flags(&mut cc, &self.config.include_dir);
        let ghost start = cc@;
        let deps = &self.dependant_libs;
        let mut i: usize = 0;
        assert(deps@.subrange(0, 0) =~= Seq::<Target>::empty());
        assert(start + dep_include_flags(deps@.subrange(0, 0)) =~= start);
        while i < deps.len()
            invariant
                i <= deps@.len(),
                cc@ == start + dep_include_flags(deps@.subrange(0, i as int)),
            decreases deps@.len() - i,
        {
            assert(deps@.subrange(0, i + 1).drop_last() =~= deps@.subrange(0, i as int));
            append_include_flags(&mut cc, &deps[i].config.include_dir);
            i = i + 1;
            assert(cc@ =~= start + dep_include_flags(deps@.subrange(0, i as int)));
        }
        assert(deps@.subrange(0, i as int) =~= deps@);
        cc.append(" ");
        let (_, plain) = split_cflags(self.config.cflags.as_str());
        cc.append(plain.as_str());
        let ghost mid = cc@;
        let ghost outs = views(outputs@);
        let mut k: usize = 0;
        assert(mid + joined_outputs(outs.subrange(0, 0)) =~= mid);
        while k < outputs.len()
            invariant
                k <= outputs@.len(),
                outs == views(outputs@),
                cc@ == mid + joined_outputs(outs.subrange(0, k as int)),
            decreases outputs@.len() - k,
        {
            assert(outs.subrange(0, k + 1).drop_last() =~= outs.subrange(0, k as int));
            append_newlines_to_spaces(&mut cc, outputs[k].as_str());
            k = k + 1;
            assert(cc@ =~= mid + joined_outputs(outs.subrange(0, k as int)));
        }
        assert(outs.subrange(0, k as int) =~= outs);
        if self.config.kind == ArtifactKind::SharedLibrary {
            cc.append("-fPIC ");
        }
        cc.append(src.path.as_str());
        cc.append("\",\n");
        cc.append("\t\"directory\": \"");
        cc.append(cwd);
        cc.append("\",\n");
        cc.append("\t\"file\": \"");
        cc.append(cwd);
        cc.append("/");
        cc.append(src.path.as_str());
        cc.append("\"");
        cc.append("\n}");
        assert(cc@ =~= cc_record(family@, *src, self.config, self.dependant_libs@, views(outputs@), cwd@));
        Some(cc)
    }
}

} // verus!
