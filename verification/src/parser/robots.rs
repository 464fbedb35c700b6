//! Reading the `Disallow` rules that a robots.txt file sets for every agent.
use vstd::prelude::*;

use crate::utils::text::{
    chars_of, has_prefix_at, is_trimmed, lemma_trim_is_trimmed, remove_all, remove_all_chars,
    starts_with, string_from_chars, sub_chars, trim, trim_bounds, trim_end, trim_start,
};

verus! {

/// Number of characters of `s` before its first line feed (all of them if none).
pub open spec fn line_len(s: Seq<char>) -> nat
    decreases s.len(),
{
    if s.len() == 0 || s[0] == '\n' {
        0
    } else {
        1 + line_len(s.drop_first())
    }
}

pub proof fn lemma_line_len(s: Seq<char>)
    ensures
        line_len(s) <= s.len(),
        line_len(s) < s.len() ==> s[line_len(s) as int] == '\n',
    decreases s.len(),
{
    if s.len() > 0 && s[0] != '\n' {
        lemma_line_len(s.drop_first());
    }
}

/// The pieces of `s` between line feeds, in order; the last piece is what
/// follows the last line feed (possibly nothing).
pub open spec fn lines(s: Seq<char>) -> Seq<Seq<char>>
    decreases s.len(),
{
    proof {
        lemma_line_len(s);
    }
    if line_len(s) >= s.len() {
        seq![s]
    } else {
        seq![s.take(line_len(s) as int)] + lines(s.skip(line_len(s) as int + 1))
    }
}

proof fn lemma_line_len_exact(cur: Seq<char>, rest: Seq<char>)
    requires
        forall|j: int| 0 <= j < cur.len() ==> cur[j] != '\n',
        rest.len() == 0 || rest[0] == '\n',
    ensures
        line_len(cur + rest) == cur.len(),
    decreases cur.len(),
{
    if cur.len() == 0 {
        assert(cur + rest =~= rest);
    } else {
        assert((cur + rest).drop_first() =~= cur.drop_first() + rest);
        assert(cur[0] != '\n');
        lemma_line_len_exact(cur.drop_first(), rest);
    }
}

/// `"User-agent: *"`
pub open spec fn any_agent() -> Seq<char> {
    seq!['U', 's', 'e', 'r', '-', 'a', 'g', 'e', 'n', 't', ':', ' ', '*']
}

/// `"User-agent:"`
pub open spec fn agent() -> Seq<char> {
    seq!['U', 's', 'e', 'r', '-', 'a', 'g', 'e', 'n', 't', ':']
}

/// `"Disallow:"`
pub open spec fn disallow() -> Seq<char> {
    seq!['D', 'i', 's', 'a', 'l', 'l', 'o', 'w', ':']
}

/// Whether the rules that follow a trimmed `line` apply to every agent:
/// `User-agent: *` opens such a group, any other `User-agent:` line closes it.
pub open spec fn applies_after(applies: bool, line: Seq<char>) -> bool {
    if any_agent().is_prefix_of(line) {
        true
    } else if agent().is_prefix_of(line) {
        false
    } else {
        applies
    }
}

/// The rule that a trimmed `line` adds, if any: the line with every
/// `Disallow:` taken out, trimmed.
pub open spec fn rule_of(applies: bool, line: Seq<char>) -> Seq<Seq<char>> {
    if applies_after(applies, line) && disallow().is_prefix_of(line) {
        seq![trim(remove_all(line, disallow()))]
    } else {
        seq![]
    }
}

/// The rules that the lines `ls` set, given whether the group in force
/// before them applies to every agent.
pub open spec fn rules_in(ls: Seq<Seq<char>>, applies: bool) -> Seq<Seq<char>>
    decreases ls.len(),
{
    if ls.len() == 0 {
        seq![]
    } else {
        let line = trim(ls[0]);
        rule_of(applies, line) + rules_in(ls.drop_first(), applies_after(applies, line))
    }
}

/// The `Disallow` rules that robots.txt `text` sets for every agent, in order.
/// Splitting at line feeds gives the same rules as `str::lines`: a carriage
/// return before a line feed, and an empty last piece, vanish once each line
/// is trimmed, and an empty line neither opens a group nor adds a rule.
pub open spec fn robots_rules(text: Seq<char>) -> Seq<Seq<char>> {
    rules_in(lines(text), false)
}

/// `"https://"`
pub open spec fn https_scheme() -> Seq<char> {
    seq!['h', 't', 't', 'p', 's', ':', '/', '/']
}

/// `"/robots.txt"`
pub open spec fn robots_path() -> Seq<char> {
    seq!['/', 'r', 'o', 'b', 'o', 't', 's', '.', 't', 'x', 't']
}

/// The address of the robots.txt file of `domain`.
pub fn robots_url(domain: &str) -> (r: String)
    ensures
        r@ == https_scheme() + domain@ + robots_path(),
{
    let mut u = String::from_str("https://");
    u.append(domain);
    u.append("/robots.txt");
    proof {
        reveal_strlit("https://");
        reveal_strlit("/robots.txt");
        assert("https://"@ =~= https_scheme());
        assert("/robots.txt"@ =~= robots_path());
    }
    u
}

fn any_agent_chars() -> (r: Vec<char>)
    ensures
        r@ == any_agent(),
{
    let r = vec!['U', 's', 'e', 'r', '-', 'a', 'g', 'e', 'n', 't', ':', ' ', '*'];
    assert(r@ =~= any_agent());
    r
}

fn agent_chars() -> (r: Vec<char>)
    ensures
        r@ == agent(),
{
    let r = vec!['U', 's', 'e', 'r', '-', 'a', 'g', 'e', 'n', 't', ':'];
    assert(r@ =~= agent());
    r
}

fn disallow_chars() -> (r: Vec<char>)
    ensures
        r@ == disallow(),
{
    let r = vec!['D', 'i', 's', 'a', 'l', 'l', 'o', 'w', ':'];
    assert(r@ =~= disallow());
    r
}

/// Reads one line `cs[lo..hi]`: whether the group after it applies to every
/// agent, and the rule it adds.
fn read_line(
    cs: &Vec<char>,
    lo: usize,
    hi: usize,
    applies: bool,
    rules: &mut Vec<String>,
) -> (after: bool)
    requires
        lo <= hi <= cs@.len(),
    ensures
        after == applies_after(applies, trim(cs@.subrange(lo as int, hi as int))),
        final(rules).deep_view() == old(rules).deep_view() + rule_of(
            applies,
            trim(cs@.subrange(lo as int, hi as int)),
        ),
{
    let ghost line = trim(cs@.subrange(lo as int, hi as int));
    let (a, b) = trim_bounds(cs, lo, hi);
    let any = any_agent_chars();
    let ua = agent_chars();
    let dis = disallow_chars();
    let after = if has_prefix_at(cs, a, b, &any) {
        true
    } else if has_prefix_at(cs, a, b, &ua) {
        false
    } else {
        applies
    };
    if after && has_prefix_at(cs, a, b, &dis) {
        let removed = remove_all_chars(cs, a, b, &dis);
        let (c, d) = trim_bounds(&removed, 0, removed.len());
        assert(removed@.subrange(0, removed@.len() as int) =~= removed@);
        let kept = sub_chars(&removed, c, d);
        let rule = string_from_chars(&kept);
        let ghost before = rules.deep_view();
        rules.push(rule);
        assert(rules.deep_view() =~= before + rule_of(applies, line));
    } else {
        assert(rules.deep_view() =~= old(rules).deep_view() + rule_of(applies, line));
    }
    after
}

/// The `Disallow` rules of a robots.txt file that apply to every agent
/// (`User-agent: *`), in the order they appear, each with the `Disallow:`
/// marker taken out and trimmed.
pub fn parse_robots_txt(text: &str) -> (rules: Vec<String>)
    ensures
        rules.deep_view() == robots_rules(text@),
{
    let cs = chars_of(text);
    let n = cs.len();
    let mut rules: Vec<String> = Vec::new();
    let mut applies = false;
    let mut start: usize = 0;
    assert(cs@.skip(0) =~= cs@);
    assert(rules.deep_view() + rules_in(lines(cs@), false) =~= robots_rules(text@));
    for i in 0..n
        invariant
            n == cs@.len(),
            cs@ == text@,
            start <= i,
            forall|j: int| start <= j < i ==> cs@[j] != '\n',
            robots_rules(text@) == rules.deep_view() + rules_in(lines(cs@.skip(start as int)), applies),
    {
        if cs[i] == '\n' {
            proof {
                let cur = cs@.subrange(start as int, i as int);
                let rest = cs@.skip(i as int);
                assert(cs@.skip(start as int) =~= cur + rest);
                lemma_line_len_exact(cur, rest);
                lemma_line_len(cs@.skip(start as int));
                assert((cur + rest).take(cur.len() as int) =~= cur);
                assert((cur + rest).skip(cur.len() as int + 1) =~= cs@.skip(i + 1));
                let ls = lines(cs@.skip(start as int));
                assert(ls == seq![cur] + lines(cs@.skip(i + 1)));
                assert(ls[0] == cur);
                assert(ls.drop_first() =~= lines(cs@.skip(i + 1)));
                assert(rules_in(lines(cs@.skip(start as int)), applies) == rule_of(applies, trim(cur))
                    + rules_in(lines(cs@.skip(i + 1)), applies_after(applies, trim(cur))));
            }
            let ghost before = rules.deep_view();
            applies = read_line(&cs, start, i, applies, &mut rules);
            assert(robots_rules(text@) =~= rules.deep_view() + rules_in(lines(cs@.skip(i + 1)), applies));
            start = i + 1;
        }
    }
    proof {
        let cur = cs@.subrange(start as int, n as int);
        assert(cs@.skip(start as int) =~= cur + seq![]);
        lemma_line_len_exact(cur, seq![]);
        assert(lines(cs@.skip(start as int)) == seq![cur]);
        assert(rules_in(seq![cur].drop_first(), applies_after(applies, trim(cur))) == Seq::<Seq<char>>::empty());
        assert(rules_in(lines(cs@.skip(start as int)), applies) =~= rule_of(applies, trim(cur)));
    }
    let _ = read_line(&cs, start, n, applies, &mut rules);
    rules
}

/// Whether a non-empty rule of `rules` is a prefix of `path`.
pub open spec fn blocks(rules: Seq<Seq<char>>, path: Seq<char>) -> bool {
    exists|i: int| 0 <= i < rules.len() && #[trigger] rules[i].len() > 0 && rules[i].is_prefix_of(path)
}

/// Whether robots rules forbid `path`: some rule is non-empty and begins `path`.
pub fn is_blocked(rules: &Vec<String>, path: &str) -> (r: bool)
    ensures
        r == blocks(rules.deep_view(), path@),
{
    let n = rules.len();
    for i in 0..n
        invariant
            n == rules@.len(),
            forall|j: int| 0 <= j < i ==> !(#[trigger] rules.deep_view()[j].len() > 0 && rules.deep_view()[j].is_prefix_of(path@)),
    {
        let rule = rules[i].as_str();
        assert(rule@ == rules.deep_view()[i as int]);
        if !rule.is_empty() && starts_with(path, rule) {
            return true;
        }
    }
    false
}

/// Every rule is trimmed: it neither starts nor ends with whitespace.
pub proof fn lemma_rules_in_trimmed(ls: Seq<Seq<char>>, applies: bool)
    ensures
        forall|i: int| 0 <= i < rules_in(ls, applies).len() ==> is_trimmed(#[trigger] rules_in(ls, applies)[i]),
    decreases ls.len(),
{
    if ls.len() > 0 {
        let line = trim(ls[0]);
        let here = rule_of(applies, line);
        let rest = rules_in(ls.drop_first(), applies_after(applies, line));
        lemma_rules_in_trimmed(ls.drop_first(), applies_after(applies, line));
        lemma_trim_is_trimmed(remove_all(line, disallow()));
        assert forall|i: int| 0 <= i < rules_in(ls, applies).len() implies is_trimmed(#[trigger] rules_in(ls, applies)[i]) by {
            if i < here.len() {
                assert(rules_in(ls, applies)[i] == here[i]);
            } else {
                assert(rules_in(ls, applies)[i] == rest[i - here.len()]);
            }
        }
    }
}

/// The rules of a robots.txt file are trimmed, and empty text sets none.
pub proof fn lemma_robots_rules_trimmed(text: Seq<char>)
    ensures
        forall|i: int| 0 <= i < robots_rules(text).len() ==> is_trimmed(#[trigger] robots_rules(text)[i]),
        text.len() == 0 ==> robots_rules(text).len() == 0,
{
    lemma_rules_in_trimmed(lines(text), false);
    if text.len() == 0 {
        assert(lines(text) == seq![text]);
        let line = trim(text);
        assert(trim_start(text) == text);
        assert(line =~= text);
        assert(!disallow().is_prefix_of(line));
        assert(trim_end(text) == text);
        assert(lines(text).drop_first() =~= Seq::<Seq<char>>::empty());
        assert(lines(text)[0] == text);
        assert(rule_of(false, line) =~= Seq::<Seq<char>>::empty());
        assert(rules_in(lines(text).drop_first(), applies_after(false, line)) =~= Seq::<Seq<char>>::empty());
        assert(robots_rules(text) =~= Seq::<Seq<char>>::empty());
    }
}

/// A rule at any position of the list blocks every path that it begins,
/// provided it is not empty; an empty rule blocks nothing by itself.
pub proof fn lemma_any_rule_blocks(rules: Seq<Seq<char>>, path: Seq<char>, i: int)
    requires
        0 <= i < rules.len(),
        rules[i].len() > 0,
        rules[i].is_prefix_of(path),
    ensures
        blocks(rules, path),
{
}

/// Rules that block nothing: where no rule is both non-empty and a prefix
/// of `path`, `path` is not blocked.
pub proof fn lemma_unblocked_without_matching_rule(rules: Seq<Seq<char>>, path: Seq<char>)
    requires
        forall|i: int| 0 <= i < rules.len() ==> rules[i].len() == 0 || !rules[i].is_prefix_of(path),
    ensures
        !blocks(rules, path),
{
}

/// Two lists of rules together block exactly the paths that either list
/// blocks: the order of the rules does not matter.
pub proof fn lemma_blocks_concat(a: Seq<Seq<char>>, b: Seq<Seq<char>>, path: Seq<char>)
    ensures
        blocks(a + b, path) == (blocks(a, path) || blocks(b, path)),
        blocks(a + b, path) == blocks(b + a, path),
{
    if blocks(a, path) {
        let i = choose|i: int| 0 <= i < a.len() && #[trigger] a[i].len() > 0 && a[i].is_prefix_of(path);
        assert((a + b)[i] == a[i]);
        assert((b + a)[b.len() + i] == a[i]);
    }
    if blocks(b, path) {
        let i = choose|i: int| 0 <= i < b.len() && #[trigger] b[i].len() > 0 && b[i].is_prefix_of(path);
        assert((a + b)[a.len() + i] == b[i]);
        assert((b + a)[i] == b[i]);
    }
    if blocks(a + b, path) {
        let i = choose|i: int| 0 <= i < (a + b).len() && #[trigger] (a + b)[i].len() > 0 && (a + b)[i].is_prefix_of(path);
        if i < a.len() {
            assert(a[i] == (a + b)[i]);
        } else {
            assert(b[i - a.len()] == (a + b)[i]);
        }
    }
    if blocks(b + a, path) {
        let i = choose|i: int| 0 <= i < (b + a).len() && #[trigger] (b + a)[i].len() > 0 && (b + a)[i].is_prefix_of(path);
        if i < b.len() {
            assert(b[i] == (b + a)[i]);
        } else {
            assert(a[i - b.len()] == (b + a)[i]);
        }
    }
}

/// A line beginning `User-agent: *` begins `User-agent:` too.
proof fn lemma_any_agent_is_agent(line: Seq<char>)
    requires
        any_agent().is_prefix_of(line),
    ensures
        agent().is_prefix_of(line),
{
    assert forall|j: int| 0 <= j < agent().len() implies agent()[j] == line[j] by {
        assert(agent()[j] == any_agent()[j]);
        assert(any_agent()[j] == line.subrange(0, any_agent().len() as int)[j]);
    }
    assert(agent() =~= line.subrange(0, agent().len() as int));
}

/// Only a `User-agent:` line changes whether the rules that follow apply to
/// every agent: any other line (`Allow:`, `Disallow:`, `Crawl-delay:`, a
/// comment, a blank line) leaves that as it was. A `User-agent: *` line opens
/// a group for every agent, any other `User-agent:` line closes it.
pub proof fn lemma_only_agent_lines_switch(applies: bool, line: Seq<char>)
    ensures
        !agent().is_prefix_of(line) ==> applies_after(applies, line) == applies,
        any_agent().is_prefix_of(line) ==> applies_after(applies, line),
        agent().is_prefix_of(line) && !any_agent().is_prefix_of(line) ==> !applies_after(applies, line),
{
    if any_agent().is_prefix_of(line) {
        lemma_any_agent_is_agent(line);
    }
}

/// A line that, once trimmed, begins neither `User-agent:` nor `Disallow:`
/// can be taken out of a robots.txt file without changing its rules.
pub proof fn lemma_other_line_ignored(ls: Seq<Seq<char>>, applies: bool, k: int)
    requires
        0 <= k < ls.len(),
        !agent().is_prefix_of(trim(ls[k])),
        !disallow().is_prefix_of(trim(ls[k])),
    ensures
        rules_in(ls.remove(k), applies) == rules_in(ls, applies),
    decreases k,
{
    let line = trim(ls[0]);
    if k == 0 {
        lemma_only_agent_lines_switch(applies, line);
        assert(ls.remove(0) =~= ls.drop_first());
        assert(rule_of(applies, line) =~= Seq::<Seq<char>>::empty());
        assert(rules_in(ls, applies) =~= rules_in(ls.drop_first(), applies));
    } else {
        let after = applies_after(applies, line);
        lemma_other_line_ignored(ls.drop_first(), after, k - 1);
        assert(ls.remove(k)[0] == ls[0]);
        assert(ls.remove(k).drop_first() =~= ls.drop_first().remove(k - 1));
        assert(ls.drop_first()[k - 1] == ls[k]);
    }
}

/// A line that begins `Disallow:` is no `User-agent:` line.
proof fn lemma_disallow_not_agent(line: Seq<char>)
    requires
        disallow().is_prefix_of(line),
    ensures
        !agent().is_prefix_of(line),
{
    if agent().is_prefix_of(line) {
        assert(disallow()[0] == line.subrange(0, disallow().len() as int)[0]);
        assert(agent()[0] == line.subrange(0, agent().len() as int)[0]);
    }
}

/// A `Disallow:` line adds its rule where the group in force applies to
/// every agent, whatever lines came before it in that group, and nothing
/// elsewhere; it never changes the group. The rule is the line with the
/// `Disallow:` marker taken out, trimmed.
pub proof fn lemma_disallow_line(ls: Seq<Seq<char>>, applies: bool)
    requires
        ls.len() > 0,
        disallow().is_prefix_of(trim(ls[0])),
    ensures
        applies ==> rules_in(ls, applies) == seq![trim(remove_all(trim(ls[0]), disallow()))] + rules_in(
            ls.drop_first(),
            true,
        ),
        !applies ==> rules_in(ls, applies) == rules_in(ls.drop_first(), false),
{
    let line = trim(ls[0]);
    lemma_disallow_not_agent(line);
    lemma_only_agent_lines_switch(applies, line);
    assert(Seq::<Seq<char>>::empty() + rules_in(ls.drop_first(), false) =~= rules_in(ls.drop_first(), false));
}

/// A `User-agent:` line adds no rule; the rules after it apply to every
/// agent exactly when it is `User-agent: *`.
pub proof fn lemma_agent_line(ls: Seq<Seq<char>>, applies: bool)
    requires
        ls.len() > 0,
        agent().is_prefix_of(trim(ls[0])),
    ensures
        rules_in(ls, applies) == rules_in(ls.drop_first(), any_agent().is_prefix_of(trim(ls[0]))),
{
    let line = trim(ls[0]);
    if disallow().is_prefix_of(line) {
        lemma_disallow_not_agent(line);
    }
    lemma_only_agent_lines_switch(applies, line);
    assert(Seq::<Seq<char>>::empty() + rules_in(ls.drop_first(), applies_after(applies, line)) =~= rules_in(
        ls.drop_first(),
        applies_after(applies, line),
    ));
}

/// Rules are only ever taken from a group for every agent: lines with no
/// `User-agent: *` line among them, read outside such a group, set no rule.
pub proof fn lemma_no_group_no_rules(ls: Seq<Seq<char>>)
    requires
        forall|i: int| 0 <= i < ls.len() ==> !any_agent().is_prefix_of(#[trigger] trim(ls[i])),
    ensures
        rules_in(ls, false) == Seq::<Seq<char>>::empty(),
    decreases ls.len(),
{
    if ls.len() > 0 {
        let line = trim(ls[0]);
        assert(!any_agent().is_prefix_of(trim(ls[0])));
        assert forall|i: int| 0 <= i < ls.drop_first().len() implies !any_agent().is_prefix_of(
            #[trigger] trim(ls.drop_first()[i]),
        ) by {
            assert(ls.drop_first()[i] == ls[i + 1]);
        }
        lemma_no_group_no_rules(ls.drop_first());
        assert(!applies_after(false, line));
        assert(rule_of(false, line) =~= Seq::<Seq<char>>::empty());
        assert(rules_in(ls, false) =~= Seq::<Seq<char>>::empty());
    }
}

/// Taking the `Disallow:` marker out of a line that begins with it leaves
/// what follows the marker, with any further marker taken out too.
pub proof fn lemma_marker_removed(rest: Seq<char>)
    ensures
        remove_all(disallow() + rest, disallow()) == remove_all(rest, disallow()),
{
    let line = disallow() + rest;
    assert(disallow().is_prefix_of(line)) by {
        assert(line.subrange(0, disallow().len() as int) =~= disallow());
    }
    assert(line.skip(disallow().len() as int) =~= rest);
}

} // verus!
