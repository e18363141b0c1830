//! What the program prints when it starts.

use vstd::prelude::*;
use vstd::string::*;

use crate::config::Cfg;
use crate::json::pairs_view;
use crate::rewrite::patch_view;
use crate::text::{decimal, decimal_text, duration_quoted, duration_text, join};

verus! {

/// The line that shows a renaming.
pub open spec fn rename_line(pair: (Seq<char>, Seq<char>)) -> Seq<char> {
    "rename: "@ + pair.0 + " -> "@ + pair.1
}

/// The line that shows a patch entry.
pub open spec fn patch_line(entry: (Seq<char>, Option<Seq<char>>)) -> Seq<char> {
    "patch: "@ + entry.0 + " = "@ + match entry.1 {
        Some(raw) => raw,
        None => "<removed>"@,
    }
}

/// The line that shows the limit on requests, where there is one.
pub open spec fn limit_lines(limit: Option<u32>, queue_timeout: u64) -> Seq<Seq<char>> {
    match limit {
        Some(n) => seq![
            "concurrency: "@ + decimal_text(n as nat) + " (queue timeout "@ + duration_quoted(
                queue_timeout,
            ) + ")"@,
        ],
        None => Seq::empty(),
    }
}

/// The lines that show a configuration.
pub open spec fn cfg_lines(cfg: Cfg) -> Seq<Seq<char>> {
    pairs_view(cfg.rename@).map_values(|pair: (Seq<char>, Seq<char>)| rename_line(pair))
        + patch_view(cfg.patch@).map_values(
        |entry: (Seq<char>, Option<Seq<char>>)| patch_line(entry),
    ) + limit_lines(cfg.limit, cfg.queue_timeout)
}

/// There is a line for each renaming, then one for each patch entry, then one for the
/// limit where there is one, and each shows what it stands for.
pub proof fn law_lines_of_cfg(cfg: Cfg)
    ensures
        ({
            let lines = cfg_lines(cfg);
            &&& lines.len() == cfg.rename@.len() + cfg.patch@.len() + (if cfg.limit is Some {
                1nat
            } else {
                0
            })
            &&& forall|i: int|
                0 <= i < cfg.rename@.len() ==> #[trigger] lines[i] == "rename: "@
                    + cfg.rename@[i].0@ + " -> "@ + cfg.rename@[i].1@
            &&& forall|i: int|
                0 <= i < cfg.patch@.len() ==> lines[cfg.rename@.len() + i] == "patch: "@ + (
                #[trigger] cfg.patch@[i]).0@ + " = "@ + match cfg.patch@[i].1 {
                    Some(raw) => raw@,
                    None => "<removed>"@,
                }
            &&& cfg.limit matches Some(limit) ==> lines[lines.len() - 1] == "concurrency: "@
                + decimal_text(limit as nat) + " (queue timeout "@ + duration_quoted(
                cfg.queue_timeout,
            ) + ")"@
        }),
{
}

/// Texts as plain sequences.
pub open spec fn lines_view(lines: Seq<String>) -> Seq<Seq<char>> {
    lines.map_values(|line: String| line@)
}

/// The lines that show a configuration.
pub fn startup_lines(cfg: &Cfg) -> (r: Vec<String>)
    ensures
        lines_view(r@) == cfg_lines(*cfg),
        r@.len() == cfg.rename@.len() + cfg.patch@.len() + (if cfg.limit is Some {
            1nat
        } else {
            0
        }),
        forall|i: int|
            0 <= i < cfg.rename@.len() ==> (#[trigger] r@[i])@ == "rename: "@ + cfg.rename@[i].0@
                + " -> "@ + cfg.rename@[i].1@,
        forall|i: int|
            0 <= i < cfg.patch@.len() ==> r@[cfg.rename@.len() + i]@ == "patch: "@ + (
            #[trigger] cfg.patch@[i]).0@ + " = "@ + match cfg.patch@[i].1 {
                Some(raw) => raw@,
                None => "<removed>"@,
            },
        cfg.limit matches Some(limit) ==> r@[r@.len() - 1]@ == "concurrency: "@ + decimal_text(
            limit as nat,
        ) + " (queue timeout "@ + duration_quoted(cfg.queue_timeout) + ")"@,
{
    let mut out: Vec<String> = Vec::new();
    let ghost renames = pairs_view(cfg.rename@).map_values(
        |pair: (Seq<char>, Seq<char>)| rename_line(pair),
    );
    let ghost patches = patch_view(cfg.patch@).map_values(
        |entry: (Seq<char>, Option<Seq<char>>)| patch_line(entry),
    );
    let mut i: usize = 0;
    while i < cfg.rename.len()
        invariant
            i <= cfg.rename.len(),
            renames == pairs_view(cfg.rename@).map_values(
                |pair: (Seq<char>, Seq<char>)| rename_line(pair),
            ),
            lines_view(out@) == renames.take(i as int),
        decreases cfg.rename.len() - i,
    {
        let ghost before = out@;
        let (from, to) = &cfg.rename[i];
        out.push(join("rename: ", from.as_str(), " -> ").concat(to.as_str()));
        assert(lines_view(out@) =~= lines_view(before).push(renames[i as int]));
        assert(renames.take(i + 1) =~= renames.take(i as int).push(renames[i as int]));
        i += 1;
    }
    assert(renames.take(i as int) == renames);
    let mut j: usize = 0;
    assert(patches.take(0) =~= Seq::empty());
    assert(renames + patches.take(0) =~= renames);
    while j < cfg.patch.len()
        invariant
            j <= cfg.patch.len(),
            patches == patch_view(cfg.patch@).map_values(
                |entry: (Seq<char>, Option<Seq<char>>)| patch_line(entry),
            ),
            lines_view(out@) == renames + patches.take(j as int),
        decreases cfg.patch.len() - j,
    {
        let ghost before = out@;
        let (key, value) = &cfg.patch[j];
        let shown = match value {
            Some(raw) => raw.get(),
            None => "<removed>",
        };
        out.push(join("patch: ", key.as_str(), " = ").concat(shown));
        assert(lines_view(out@) =~= lines_view(before).push(patches[j as int]));
        assert(renames + patches.take(j + 1) =~= (renames + patches.take(j as int)).push(
            patches[j as int],
        ));
        j += 1;
    }
    assert(patches.take(j as int) == patches);
    if let Some(limit) = cfg.limit {
        let ghost before = out@;
        let count = decimal(limit as u64);
        let timeout = duration_text(cfg.queue_timeout);
        let line = join("concurrency: ", count.as_str(), " (queue timeout ");
        out.push(line.concat(timeout.as_str()).concat(")"));
        assert(lines_view(out@) =~= lines_view(before) + limit_lines(cfg.limit, cfg.queue_timeout));
    } else {
        assert(lines_view(out@) =~= lines_view(out@) + limit_lines(cfg.limit, cfg.queue_timeout));
    }
    proof {
        law_lines_of_cfg(*cfg);
        assert(lines_view(out@).len() == out@.len());
        assert forall|i: int| 0 <= i < out@.len() implies (#[trigger] out@[i])@ == cfg_lines(
            *cfg,
        )[i] by {
            assert(lines_view(out@)[i] == out@[i]@);
        }
    }
    out
}

/// The line that says where the program listens and where requests go.
pub fn listening_line(cfg: &Cfg) -> (r: String)
    ensures
        r@ == "listening on http://127.0.0.1:"@ + decimal_text(cfg.port as nat) + "  ->  "@
            + cfg.upstream@,
{
    let port = decimal(cfg.port as u64);
    join("listening on http://127.0.0.1:", port.as_str(), "  ->  ").concat(cfg.upstream.as_str())
}

} // verus!
