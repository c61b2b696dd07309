//! What holds of the checks of source files.
use vstd::prelude::*;

use crate::test_runner::lints::banned_patterns;
use crate::test_runner::lints::banned_rules;
use crate::test_runner::lints::banned_rules::RuleView;
use crate::test_runner::lints::banned_patterns::RustBannedPatternsLint;
use crate::test_runner::lints::findings;
use crate::test_runner::lints::findings::FindingView;
use crate::test_runner::lints::magic_numbers;
use crate::test_runner::lints::magic_numbers::{RustMagicNumbersLint, TestModule};
use crate::test_runner::lints::patterns;
use crate::test_runner::lints::qom_type_info;
use crate::test_runner::lints::qom_type_info::QomTypeInfoLint;
use crate::test_runner::lints::safe_serialization;
use crate::test_runner::lints::safe_serialization::RustSafeSerializationLint;
use crate::test_runner::lints::Lint;
use crate::test_runner::lints::static_state;
use crate::test_runner::lints::static_state::StaticItemView;
use crate::test_runner::lints::verify_exports;
use crate::text;
use crate::text_laws;

verus! {

/// A line is left alone if it, or the one in front of it, holds the permission for the rule, and not
/// otherwise.
pub proof fn law_permissions(
    lines: Seq<Seq<char>>,
    i: int,
    rule: Seq<char>,
    a: Seq<char>,
    b: Seq<char>,
)
    requires
        0 <= i < lines.len(),
    ensures
        lines[i] == a + ("// virtmcu-allow: "@ + rule) + b ==> findings::suppressed_at(
            lines,
            i,
            rule,
        ),
        i > 0 && lines[i - 1] == a + ("// virtmcu-allow: "@ + rule) + b ==> findings::suppressed_at(
            lines,
            i,
            rule,
        ),
        !text::occurs(lines[i], "// virtmcu-allow: "@ + rule) && (i > 0 ==> !text::occurs(
            lines[i - 1],
            "// virtmcu-allow: "@ + rule,
        )) ==> !findings::suppressed_at(lines, i, rule),
{
    let p = "// virtmcu-allow: "@ + rule;
    let s = a + p + b;
    assert(s.subrange(a.len() as int, a.len() + p.len() as int) =~= p);
    assert(text::stands_at(s, p, a.len() as int));
}

/// What a match that spans lines comes to: one finding on the line behind those before it, unless it
/// is left alone; no match, no finding.
pub proof fn law_spanning_findings(
    before: Seq<char>,
    found: Seq<char>,
    rule: Seq<char>,
    message: Seq<char>,
)
    ensures
        findings::suppressed_before(before, rule) ==> findings::spanning_found(
            Some((before, found)),
            rule,
            message,
        ).len() == 0,
        !findings::suppressed_before(before, rule) ==> findings::spanning_found(
            Some((before, found)),
            rule,
            message,
        ) == seq![FindingView { line: (text::lines_of(before).len() + 1) as int, message }],
        findings::spanning_found(None, rule, message).len() == 0,
{
}

/// A permission near enough in front of a match counts.
pub proof fn law_permission_in_front(a: Seq<char>, rule: Seq<char>, b: Seq<char>)
    requires
        text_laws::bytes_of("// virtmcu-allow: "@ + rule + b) <= 100,
    ensures
        findings::suppressed_before(a + ("// virtmcu-allow: "@ + rule) + b, rule),
{
    let p = "// virtmcu-allow: "@ + rule;
    let before = a + p + b;
    let tail = text::tail_within(before, 100);
    text_laws::law_tail_within(before, 100);
    let n = (p + b).len();
    assert(tail.len() >= n) by {
        if tail.len() < n {
            let cut = before.len() - tail.len() - 1;
            lemma_bytes_monotone(p + b, cut - a.len());
            assert(before.skip(cut) =~= (p + b).skip(cut - a.len()));
            lemma_bytes_front(before.skip(cut));
            assert(before.skip(cut).drop_first() =~= tail);
        }
    }
    let at = tail.len() - n;
    assert(tail.subrange(at, at + p.len()) =~= p);
    assert(text::stands_at(tail, p, at));
}

proof fn lemma_bytes_front(s: Seq<char>)
    requires
        s.len() > 0,
    ensures
        text_laws::bytes_of(s) == text::utf8_size(s[0]) + text_laws::bytes_of(s.drop_first()),
    decreases s.len(),
{
    if s.len() == 1 {
        assert(s.drop_first() =~= Seq::<char>::empty());
        assert(s.drop_last() =~= Seq::<char>::empty());
        assert(text_laws::bytes_of(Seq::<char>::empty()) == 0);
    } else {
        lemma_bytes_front(s.drop_last());
        assert(s.drop_first().drop_last() =~= s.drop_last().drop_first());
        assert(s.drop_first().last() == s.last());
    }
}

proof fn lemma_bytes_monotone(s: Seq<char>, k: int)
    requires
        0 <= k <= s.len(),
    ensures
        text_laws::bytes_of(s.skip(k)) <= text_laws::bytes_of(s),
    decreases k,
{
    if k > 0 {
        lemma_bytes_monotone(s, k - 1);
        lemma_bytes_front(s.skip(k - 1));
        assert(s.skip(k - 1).drop_first() =~= s.skip(k));
    } else {
        assert(s.skip(0) =~= s);
    }
}

/// A rule is for the paths that mention one of its directories, or for all if it has none, but for
/// those that mention an exception.
pub proof fn law_rules_apply(rule: RuleView, path: Seq<char>)
    ensures
        banned_patterns::applies(rule, path) <==> (rule.inc_dirs.len() == 0 || exists|i: int|
            0 <= i < rule.inc_dirs.len() && text::occurs(path, #[trigger] rule.inc_dirs[i]))
            && forall|i: int|
            0 <= i < rule.exc_list.len() ==> !text::occurs(path, #[trigger] rule.exc_list[i]),
{
    if exists|i: int|
        0 <= i < rule.inc_dirs.len() && text::occurs(path, #[trigger] rule.inc_dirs[i]) {
        let i = choose|i: int|
            0 <= i < rule.inc_dirs.len() && text::occurs(path, #[trigger] rule.inc_dirs[i]);
        assert(text::occurs(path, rule.inc_dirs[i]));
    }
    if banned_patterns::mentions_one(path, rule.inc_dirs) {
        let i = choose|i: int|
            0 <= i < rule.inc_dirs.len() && #[trigger] text::occurs(path, rule.inc_dirs[i]);
        assert(text::occurs(path, rule.inc_dirs[i]));
        assert(rule.inc_dirs[i] == rule.inc_dirs[i]);
    }
    if banned_patterns::mentions_one(path, rule.exc_list) {
        let i = choose|i: int|
            0 <= i < rule.exc_list.len() && #[trigger] text::occurs(path, rule.exc_list[i]);
        assert(rule.exc_list[i] == rule.exc_list[i]);
    }
    if exists|i: int|
        0 <= i < rule.exc_list.len() && text::occurs(path, #[trigger] rule.exc_list[i]) {
        let i = choose|i: int|
            0 <= i < rule.exc_list.len() && text::occurs(path, #[trigger] rule.exc_list[i]);
        assert(text::occurs(path, rule.exc_list[i]));
    }
}

/// A rule finds exactly those lines that match it and are not left alone, in order, each with its
/// number and with what is wrong and how to mend it.
pub proof fn law_rule_findings(
    rule: RuleView,
    lines: Seq<Seq<char>>,
    matched: Seq<bool>,
    n: int,
)
    requires
        0 <= n < lines.len(),
        lines.len() == matched.len(),
    ensures
        ({
            let front = banned_patterns::rule_found(rule, lines, matched, n);
            let then = banned_patterns::rule_found(rule, lines, matched, n + 1);
            let excused = rule.may_be_suppressed && findings::suppressed_at(lines, n, rule.name);
            &&& matched[n] && !excused ==> then == front.push(
                FindingView { line: n + 1, message: rule.message + "\n  Fix: "@ + rule.fix },
            )
            &&& !matched[n] || excused ==> then == front
            &&& banned_patterns::rule_found(rule, lines, matched, 0).len() == 0
        }),
{
}

/// Each line is matched on its own, if the pattern is one.
pub proof fn law_matched_lines(pattern: Seq<char>, lines: Seq<Seq<char>>, n: int)
    requires
        0 <= n <= lines.len(),
    ensures
        banned_patterns::matched_lines(pattern, lines, n) is Some <==> forall|i: int|
            0 <= i < n ==> patterns::regex_is_match_of(pattern, #[trigger] lines[i]) is Some,
        banned_patterns::matched_lines(pattern, lines, n) matches Some(m) ==> m.len() == n
            && forall|i: int|
            0 <= i < n ==> patterns::regex_is_match_of(pattern, lines[i]) == Some(#[trigger] m[i]),
    decreases n,
{
    if n > 0 {
        law_matched_lines(pattern, lines, n - 1);
        if banned_patterns::matched_lines(pattern, lines, n) is Some {
            assert forall|i: int| 0 <= i < n implies patterns::regex_is_match_of(
                pattern,
                #[trigger] lines[i],
            ) is Some by {
                assert(i < n - 1 || i == n - 1);
            }
        }
    }
}

/// The rules find one after the other; a rule that is not for the path finds nothing.
pub proof fn law_rules_in_turn(
    all: Seq<RuleView>,
    path: Seq<char>,
    lines: Seq<Seq<char>>,
    n: int,
    matched: Seq<bool>,
)
    requires
        0 <= n < all.len(),
    ensures
        ({
            let front = banned_patterns::rules_found(all, path, lines, n);
            let then = banned_patterns::rules_found(all, path, lines, n + 1);
            &&& !banned_patterns::applies(all[n], path) ==> then == front
            &&& banned_patterns::applies(all[n], path) && front is Some
                && banned_patterns::matched_lines(all[n].pattern, lines, lines.len() as int)
                == Some(matched) ==> then == Some(
                front->0 + banned_patterns::rule_found(
                    all[n],
                    lines,
                    matched,
                    lines.len() as int,
                ),
            )
            &&& banned_patterns::rules_found(all, path, lines, 0) == Some(
                Seq::<FindingView>::empty(),
            )
        }),
{
}

/// Only sources of Rust are checked.
pub proof fn law_only_rust_is_checked(path: Seq<char>, content: Seq<char>)
    requires
        !text::is_rust_path(path),
    ensures
        banned_patterns::banned_in(path, content) == Some(Seq::<FindingView>::empty()),
        !magic_numbers::is_checked(path),
{
}

/// Every rule has a name of its own, a message and a way to mend what it finds.
pub proof fn law_rule_names(i: int, j: int)
    requires
        0 <= i < j < banned_rules::rule_table().len(),
    ensures
        banned_rules::rule_table().len() == 22,
        banned_rules::rule_table()[0].name == "sleep"@,
        banned_rules::rule_table()[1].name == "mutex"@,
        banned_rules::rule_table()[2].name == "bql"@,
        banned_rules::rule_table()[3].name == "no_std"@,
        banned_rules::rule_table()[4].name == "ne_bytes"@,
        banned_rules::rule_table()[5].name == "rng"@,
        banned_rules::rule_table()[6].name == "yield"@,
        banned_rules::rule_table()[7].name == "allow"@,
        banned_rules::rule_table()[8].name == "unwrap_or_fallback"@,
        banned_rules::rule_table()[9].name == "warn_macro"@,
        banned_rules::rule_table()[10].name == "test_sleep"@,
        banned_rules::rule_table()[11].name == "test_hardcoded_path"@,
        banned_rules::rule_table()[12].name == "test_hardcoded_port"@,
        banned_rules::rule_table()[13].name == "test_declare_subscriber"@,
        banned_rules::rule_table()[14].name == "env_in_peripheral"@,
        banned_rules::rule_table()[15].name == "topic_qom_property"@,
        banned_rules::rule_table()[16].name == "new_unchecked_in_peripheral"@,
        banned_rules::rule_table()[17].name == "unsafe_in_peripheral"@,
        banned_rules::rule_table()[18].name == "clippy_all_in_ref_peripheral"@,
        banned_rules::rule_table()[19].name == "deprecated_cast_in_ref_peripheral"@,
        banned_rules::rule_table()[20].name == "drain_token_in_ref_peripheral"@,
        banned_rules::rule_table()[21].name == "extern_c_timer_cb"@,
        banned_rules::rule_table()[i].may_be_suppressed <==> !(18 <= i <= 20),
        banned_rules::rule_table()[i].inc_dirs.len() > 0,
{
}

/// Small round numbers need no name, and no others do without.
pub proof fn law_numbers_without_names(number: Seq<char>)
    ensures
        magic_numbers::needs_no_name(number) <==> seq![
            "0"@,
            "1"@,
            "0x0"@,
            "0x1"@,
            "128"@,
            "256"@,
            "512"@,
            "1024"@,
        ].contains(number),
{
    let list = seq!["0"@, "1"@, "0x0"@, "0x1"@, "128"@, "256"@, "512"@, "1024"@];
    assert(list[0] == "0"@ && list[1] == "1"@ && list[2] == "0x0"@ && list[3] == "0x1"@ && list[4]
        == "128"@ && list[5] == "256"@ && list[6] == "512"@ && list[7] == "1024"@);
}

/// A module of tests goes from its mark to the brace that closes it: a line with more opening braces
/// goes deeper, one with more closing braces goes back, and at the outermost it ends.
pub proof fn law_test_modules(state: TestModule, line: Seq<char>)
    requires
        !text::has_prefix(line, "#[cfg(test)]"@),
        -0x4000_0000_0000_0000 < state.depth < 0x4000_0000_0000_0000,
        line.len() < 0x4000_0000_0000_0000,
    ensures
        ({
            let then = magic_numbers::after_line(state, line);
            let depth = state.depth + text::count_of(line, '{') - text::count_of(line, '}');
            &&& !state.inside ==> then == state
            &&& state.inside ==> then.depth == depth && (then.inside <==> depth > 0)
            &&& magic_numbers::entered(state, line) == state
        }),
{
    lemma_count_bound(line, '{');
    lemma_count_bound(line, '}');
}

proof fn lemma_count_bound(s: Seq<char>, c: char)
    ensures
        text::count_of(s, c) <= s.len(),
    decreases s.len(),
{
    if s.len() > 0 {
        lemma_count_bound(s.drop_last(), c);
    }
}

/// The mark of a module of tests enters one, at the outermost, whatever was before.
pub proof fn law_test_module_starts(state: TestModule, rest: Seq<char>)
    requires
        text_laws::lacks(rest, '{'),
        text_laws::lacks(rest, '}'),
    ensures
        magic_numbers::entered(state, "#[cfg(test)]"@ + rest) == (TestModule {
            inside: true,
            depth: 0,
        }),
        magic_numbers::after_line(state, "#[cfg(test)]"@ + rest) == (TestModule {
            inside: true,
            depth: 0,
        }),
{
    let mark = "#[cfg(test)]"@;
    reveal_strlit("#[cfg(test)]");
    text_laws::law_prefix_and_suffix(rest, mark);
    assert(text_laws::lacks(mark, '{'));
    assert(text_laws::lacks(mark, '}'));
    text_laws::law_counts_add_up(mark, rest, '{');
    text_laws::law_counts_add_up(mark, rest, '}');
    text_laws::law_counts_add_up(rest, mark, '{');
    text_laws::law_counts_add_up(rest, mark, '}');
}

/// A line is left alone where it names its numbers, or aligns, or asks for it, or reports an error;
/// else it is not.
pub proof fn law_lines_left_alone(line: Seq<char>, code: Seq<char>, c: bool, v: bool)
    ensures
        c || v ==> magic_numbers::left_alone(line, code, c, v),
        text::occurs(code, "align("@) ==> magic_numbers::left_alone(line, code, c, v),
        text::occurs(code, "error_setg!"@) ==> magic_numbers::left_alone(line, code, c, v),
        text::occurs(line, "virtmcu-allow: magic_numbers"@) ==> magic_numbers::left_alone(
            line,
            code,
            c,
            v,
        ),
        !text::occurs(code, "align("@) && !text::occurs(code, "error_setg!"@) && !text::occurs(
            line,
            "virtmcu-allow: magic_numbers"@,
        ) ==> !magic_numbers::left_alone(line, code, false, false),
{
}

/// Each number of a line that needs a name and is no size of an array is found, in order, on that
/// line.
pub proof fn law_numbers_found(code: Seq<char>, numbers: Seq<Seq<char>>, n: int, line: int)
    requires
        0 <= n < numbers.len(),
        magic_numbers::numbers_found(code, numbers, n, line) is Some,
    ensures
        ({
            let front = magic_numbers::numbers_found(code, numbers, n, line)->0;
            let then = magic_numbers::numbers_found(code, numbers, n + 1, line);
            let is_size = patterns::regex_is_match_of(
                magic_numbers::array_pattern(numbers[n]),
                code,
            );
            &&& magic_numbers::needs_no_name(numbers[n]) ==> then == Some(front)
            &&& !magic_numbers::needs_no_name(numbers[n]) && is_size == Some(true) ==> then == Some(
                front,
            )
            &&& !magic_numbers::needs_no_name(numbers[n]) && is_size == Some(false) ==> then is Some
                && then->0.len() == front.len() + 1 && then->0.take(front.len() as int) == front
                && then->0.last().line == line && text::has_prefix(
                then->0.last().message,
                "Magic number '"@ + numbers[n],
            )
        }),
{
    let front = magic_numbers::numbers_found(code, numbers, n, line)->0;
    let then = magic_numbers::numbers_found(code, numbers, n + 1, line);
    let is_size = patterns::regex_is_match_of(magic_numbers::array_pattern(numbers[n]), code);
    if !magic_numbers::needs_no_name(numbers[n]) && is_size == Some(true) {
        assert(front + Seq::<FindingView>::empty() =~= front);
    }
    if !magic_numbers::needs_no_name(numbers[n]) && is_size == Some(false) {
        assert(then->0.take(front.len() as int) =~= front);
        text_laws::law_prefix_and_suffix(magic_numbers::ADVICE@, "Magic number '"@ + numbers[n]);
    }
}

/// Lines in a module of tests are not looked at; the others are, each on its own.
pub proof fn law_lines_looked_at(lines: Seq<Seq<char>>, n: int)
    requires
        0 <= n < lines.len(),
    ensures
        ({
            let front = magic_numbers::lines_found(lines, n);
            let then = magic_numbers::lines_found(lines, n + 1);
            let code = text::trimmed(text::before_first(lines[n], "//"@));
            let state = magic_numbers::state_after(lines, n);
            let own = magic_numbers::line_found(lines[n], n + 1);
            &&& magic_numbers::entered(state, code).inside ==> then == front
            &&& !magic_numbers::entered(state, code).inside && front is Some && own is Some ==> then
                == Some(front->0 + own->0)
            &&& magic_numbers::state_after(lines, n + 1) == magic_numbers::after_line(state, code)
            &&& !magic_numbers::state_after(lines, 0).inside
        }),
{
}

/// Tests, build scripts and generated sources may hold numbers without names.
pub proof fn law_sources_with_numbers(path: Seq<char>)
    ensures
        text::occurs(path, "/tests/"@) || text::has_suffix(path, "build.rs"@) || text::occurs(
            path,
            "_generated.rs"@,
        ) ==> !magic_numbers::is_checked(path),
        text::is_rust_path(path) && !text::occurs(path, "/tests/"@) && !text::has_suffix(
            path,
            "build.rs"@,
        ) && !text::occurs(path, "_generated.rs"@) ==> magic_numbers::is_checked(path),
{
}

/// Escaping puts a backslash before each character that has a meaning of its own, and leaves the
/// others.
pub proof fn law_escaping(a: Seq<char>, c: char)
    ensures
        patterns::is_meta(c) ==> patterns::regex_escape_of(a.push(c)) == patterns::regex_escape_of(
            a,
        ) + seq!['\\', c],
        !patterns::is_meta(c) ==> patterns::regex_escape_of(a.push(c)) == patterns::regex_escape_of(
            a,
        ).push(c),
        patterns::regex_escape_of(Seq::empty()).len() == 0,
{
    assert(a.push(c).drop_last() =~= a);
    if patterns::is_meta(c) {
        assert(patterns::regex_escape_of(a).push('\\').push(c) =~= patterns::regex_escape_of(a)
            + seq!['\\', c]);
    }
}

/// A type with a bus device for its parent must have the size of a bus device's class; other types
/// are not looked at.
pub proof fn law_type_mismatch(parent: Seq<char>, class_size: Seq<char>)
    ensures
        qom_type_info::is_mismatch(Some(parent), Some(class_size)) <==> text::occurs(
            parent,
            "TYPE_SYS_BUS_DEVICE"@,
        ) && !text::occurs(class_size, "SysBusDeviceClass"@),
        !qom_type_info::is_mismatch(None, Some(class_size)),
        !qom_type_info::is_mismatch(Some(parent), None),
{
}

/// Descriptions of types are looked at one after the other.
pub proof fn law_descriptions_in_turn(all: Seq<patterns::CapturedView>, n: int)
    requires
        0 <= n < all.len(),
        qom_type_info::descriptions_found(all, n) is Some,
        qom_type_info::description_found(all[n]) is Some,
    ensures
        qom_type_info::descriptions_found(all, n + 1) == Some(
            qom_type_info::descriptions_found(all, n)->0 + qom_type_info::description_found(
                all[n],
            )->0,
        ),
        qom_type_info::descriptions_found(all, 0) == Some(Seq::<FindingView>::empty()),
{
}

/// Exactly those lines that copy raw memory without permission are found, in order.
pub proof fn law_copies_found(lines: Seq<Seq<char>>, n: int)
    requires
        0 <= n < lines.len(),
    ensures
        ({
            let front = safe_serialization::copies_found(lines, n);
            let then = safe_serialization::copies_found(lines, n + 1);
            let copies = text::occurs(lines[n], "ptr::copy_nonoverlapping"@);
            let excused = findings::suppressed_at(lines, n, "copy"@);
            &&& copies && !excused ==> then.len() == front.len() + 1 && then.take(
                front.len() as int,
            ) == front && then.last().line == n + 1
            &&& !copies || excused ==> then == front
            &&& safe_serialization::copies_found(lines, 0).len() == 0
        }),
{
    let front = safe_serialization::copies_found(lines, n);
    let then = safe_serialization::copies_found(lines, n + 1);
    if then != front {
        assert(then.take(front.len() as int) =~= front);
    }
}

/// A static item is banned if it can change, or if it names a type that shares state.
pub proof fn law_banned_items(item: StaticItemView, s: Seq<char>)
    ensures
        item.is_mut ==> static_state::is_banned(item),
        static_state::names_shared_state(s) <==> text::occurs(s, "Atomic"@) || text::occurs(
            s,
            "Mutex"@,
        ) || text::occurs(s, "OnceCell"@) || text::occurs(s, "OnceLock"@) || text::occurs(
            s,
            "RwLock"@,
        ) || text::occurs(s, "Cell<"@) || text::occurs(s, "RefCell<"@),
        !item.is_mut && !static_state::names_shared_state(
            text::replaced(item.tokens + " . ty"@, " "@, ""@),
        ) ==> !static_state::is_banned(item),
        !item.is_mut && static_state::names_shared_state(
            text::replaced(item.tokens + " . ty"@, " "@, ""@),
        ) ==> static_state::is_banned(item),
{
}

/// Exactly those static items are found that are banned and stand in nothing that has permission, in
/// order, each on its line.
pub proof fn law_statics_found(items: Seq<StaticItemView>, lines: Seq<Seq<char>>, n: int)
    requires
        0 <= n < items.len(),
    ensures
        ({
            let front = static_state::statics_found(items, lines, n);
            let then = static_state::statics_found(items, lines, n + 1);
            let item = items[n];
            let found = static_state::is_banned(item) && !static_state::is_allowed(
                lines,
                item.line,
            ) && forall|i: int|
                0 <= i < item.inside.len() ==> !static_state::is_allowed(
                    lines,
                    #[trigger] item.inside[i],
                );
            &&& found ==> then.len() == front.len() + 1 && then.take(front.len() as int) == front
                && then.last().line == (if item.line == 0 {
                1int
            } else {
                item.line as int
            })
            &&& !found ==> then == front
            &&& static_state::statics_found(items, lines, 0).len() == 0
        }),
{
    let front = static_state::statics_found(items, lines, n);
    let then = static_state::statics_found(items, lines, n + 1);
    if then != front {
        assert(then.take(front.len() as int) =~= front);
    }
}

/// Exactly those lines that use a banned macro without permission are found, in order.
pub proof fn law_macros_found(lines: Seq<Seq<char>>, name: Seq<char>, n: int)
    requires
        0 <= n < lines.len(),
    ensures
        ({
            let front = static_state::macros_found(lines, name, n);
            let then = static_state::macros_found(lines, name, n + 1);
            let found = text::occurs(lines[n], name) && !findings::suppressed_at(
                lines,
                n,
                "static_state"@,
            );
            &&& found ==> then.len() == front.len() + 1 && then.take(front.len() as int) == front
                && then.last().line == n + 1
            &&& !found ==> then == front
            &&& static_state::macros_found(lines, name, 0).len() == 0
        }),
{
    let front = static_state::macros_found(lines, name, n);
    let then = static_state::macros_found(lines, name, n + 1);
    if then != front {
        assert(then.take(front.len() as int) =~= front);
    }
}

/// A symbol is exported if a line lists it as code, data, zeroed data or weak, and not otherwise.
pub proof fn law_exported_symbols(lines: Seq<Seq<char>>, n: int)
    requires
        0 <= n < lines.len(),
    ensures
        ({
            let front = verify_exports::exported_by(lines, n);
            let then = verify_exports::exported_by(lines, n + 1);
            let word = text::last_word_of(lines[n]);
            let offers = text::occurs(lines[n], " T "@) || text::occurs(lines[n], " B "@)
                || text::occurs(lines[n], " D "@) || text::occurs(lines[n], " W "@);
            &&& offers && word is Some ==> then == front.push(word->0)
            &&& !offers || word is None ==> then == front
            &&& verify_exports::exported_by(lines, 0).len() == 0
        }),
{
}

proof fn lemma_missing_from(required: Seq<Seq<char>>, offered: Seq<Seq<char>>, n: int)
    requires
        0 <= n <= required.len(),
    ensures
        verify_exports::missing_from(required, offered, n) == required.take(n).filter(
            |x: Seq<char>| !offered.contains(x),
        ),
    decreases n,
{
    reveal(Seq::filter);
    if n > 0 {
        lemma_missing_from(required, offered, n - 1);
        assert(required.take(n).drop_last() =~= required.take(n - 1));
        assert(required.take(n).last() == required[n - 1]);
    }
}

/// Exactly those symbols are missing that are required and not offered, in order.
pub proof fn law_missing_symbols(required: Seq<Seq<char>>, offered: Seq<Seq<char>>)
    ensures
        verify_exports::missing_from(required, offered, required.len() as int) == required.filter(
            |x: Seq<char>| !offered.contains(x),
        ),
{
    lemma_missing_from(required, offered, required.len() as int);
    assert(required.take(required.len() as int) =~= required);
}

/// What each rule looks for.
pub proof fn law_rule_patterns()
    ensures
        banned_rules::rule_table()[0].pattern == "thread::sleep"@,
        banned_rules::rule_table()[1].pattern == "Mutex<"@,
        banned_rules::rule_table()[2].pattern == "Bql::lock\\(\\)|SafeSubscription"@,
        banned_rules::rule_table()[3].pattern == "#\\!\\[no_std\\]"@,
        banned_rules::rule_table()[4].pattern == "to_ne_bytes|from_ne_bytes"@,
        banned_rules::rule_table()[5].pattern == "rand::thread_rng\\b"@,
        banned_rules::rule_table()[6].pattern == "std::thread::yield_now\\b"@,
        banned_rules::rule_table()[7].pattern == "#\\[allow\\("@,
        banned_rules::rule_table()[8].pattern == "\\.unwrap_or\\((0|0\\.0|u(8|16|32|64)::MAX|\\[0[^\\]]*\\])\\)"@,
        banned_rules::rule_table()[9].pattern == "(sim_warn!|tracing::warn!|log::warn!)"@,
        banned_rules::rule_table()[10].pattern == "(tokio::time::sleep|std::thread::sleep)\\("@,
        banned_rules::rule_table()[11].pattern == "\"(?:/tmp/|/var/tmp)[\\w\\-\\.]*\""@,
        banned_rules::rule_table()[12].pattern == "\"127\\.0\\.0\\.1:[1-9]\\d{0,3}\""@,
        banned_rules::rule_table()[13].pattern == "\\.declare_subscriber\\("@,
        banned_rules::rule_table()[14].pattern == "UdsDataTransport::new\\(|\"VIRTMCU_SIM_ID\""@,
        banned_rules::rule_table()[15].pattern == "(?:pub\\s+topic\\s*:\\s*(?:QomString|virtmcu_qom::qom::QomString)|define_prop_\\w+\\s*!\\s*\\(\\s*\"topic\")"@,
        banned_rules::rule_table()[16].pattern == "BqlContext::new_unchecked\\(\\)"@,
        banned_rules::rule_table()[17].pattern == "\\bunsafe\\s*\\{"@,
        banned_rules::rule_table()[18].pattern == "#!\\[allow\\(clippy::all"@,
        banned_rules::rule_table()[19].pattern == "\\b(?:deref_qom_ptr|opaque_to_state)(?:_const)?\\s*[(:!]"@,
        banned_rules::rule_table()[20].pattern == "\\bDrainToken\\b"@,
        banned_rules::rule_table()[21].pattern == banned_rules::EXTERN_C_TIMER_CB_PATTERN@,
{
}

/// Where each rule looks, and what it leaves alone there.
pub proof fn law_rule_places()
    ensures
        banned_rules::rule_table()[0].inc_dirs == seq![
            "hw/rust"@,
        ],
        banned_rules::rule_table()[0].exc_list.len() == 0,
        banned_rules::rule_table()[1].inc_dirs == seq![
            "hw/rust/comms"@,
            "hw/rust/mcu"@,
            "hw/rust/observability"@,
        ],
        banned_rules::rule_table()[1].exc_list.len() == 0,
        banned_rules::rule_table()[2].inc_dirs == seq![
            "hw/rust/comms"@,
            "hw/rust/mcu"@,
            "hw/rust/observability"@,
        ],
        banned_rules::rule_table()[2].exc_list.len() == 0,
        banned_rules::rule_table()[3].inc_dirs == seq![
            "hw/rust"@,
        ],
        banned_rules::rule_table()[3].exc_list.len() == 0,
        banned_rules::rule_table()[4].inc_dirs == seq![
            "hw/rust"@,
        ],
        banned_rules::rule_table()[4].exc_list.len() == 0,
        banned_rules::rule_table()[5].inc_dirs == seq![
            "hw/rust"@,
        ],
        banned_rules::rule_table()[5].exc_list.len() == 0,
        banned_rules::rule_table()[6].inc_dirs == seq![
            "hw/rust"@,
        ],
        banned_rules::rule_table()[6].exc_list.len() == 0,
        banned_rules::rule_table()[7].inc_dirs == seq![
            "hw/rust"@,
        ],
        banned_rules::rule_table()[7].exc_list == seq![
            "target"@,
            "tests"@,
            "_generated.rs"@,
            "build.rs"@,
        ],
        banned_rules::rule_table()[8].inc_dirs == seq![
            "hw/rust"@,
            "tools"@,
        ],
        banned_rules::rule_table()[8].exc_list == seq![
            "tests"@,
        ],
        banned_rules::rule_table()[9].inc_dirs == seq![
            "hw/rust"@,
            "tools"@,
        ],
        banned_rules::rule_table()[9].exc_list == seq![
            "virtmcu-test-runner"@,
            "virtmcu-cli"@,
        ],
        banned_rules::rule_table()[10].inc_dirs == seq![
            "tests/native_integration"@,
        ],
        banned_rules::rule_table()[10].exc_list.len() == 0,
        banned_rules::rule_table()[11].inc_dirs == seq![
            "tests/native_integration"@,
        ],
        banned_rules::rule_table()[11].exc_list.len() == 0,
        banned_rules::rule_table()[12].inc_dirs == seq![
            "tests/native_integration"@,
        ],
        banned_rules::rule_table()[12].exc_list.len() == 0,
        banned_rules::rule_table()[13].inc_dirs == seq![
            "tests/native_integration"@,
        ],
        banned_rules::rule_table()[13].exc_list == seq![
            "tools/virtmcu-test-runner"@,
        ],
        banned_rules::rule_table()[14].inc_dirs == seq![
            "hw/rust"@,
        ],
        banned_rules::rule_table()[14].exc_list == seq![
            "transport-uds"@,
            "tests"@,
            "build.rs"@,
        ],
        banned_rules::rule_table()[15].inc_dirs == seq![
            "hw/rust/buses"@,
            "hw/rust/bridges"@,
            "hw/rust/physics"@,
            "hw/rust/mcu"@,
            "hw/rust/examples"@,
            "hw/rust/observability"@,
        ],
        banned_rules::rule_table()[15].exc_list.len() == 0,
        banned_rules::rule_table()[16].inc_dirs == seq![
            "hw/rust/buses"@,
            "hw/rust/physics"@,
            "hw/rust/mcu"@,
            "hw/rust/examples"@,
            "hw/rust/observability"@,
            "hw/rust/bridges"@,
        ],
        banned_rules::rule_table()[16].exc_list == seq![
            "hw/rust/observability/telemetry"@,
            "hw/rust/observability/tcg-tracer"@,
            "hw/rust/bridges/mmio-socket-bridge"@,
            "hw/rust/bridges/remote-port"@,
            "hw/rust/bridges/uart"@,
            "hw/rust/buses/ieee802154"@,
            "hw/rust/buses/flexray"@,
            "hw/rust/buses/ethernet"@,
        ],
        banned_rules::rule_table()[17].inc_dirs == seq![
            "hw/rust/buses"@,
            "hw/rust/physics"@,
            "hw/rust/mcu"@,
            "hw/rust/examples"@,
            "hw/rust/observability"@,
            "hw/rust/bridges"@,
        ],
        banned_rules::rule_table()[17].exc_list == seq![
            "hw/rust/observability/telemetry"@,
            "hw/rust/observability/tcg-tracer"@,
            "hw/rust/bridges/mmio-socket-bridge"@,
            "hw/rust/bridges/remote-port"@,
            "hw/rust/bridges/uart"@,
            "hw/rust/buses/ieee802154"@,
            "hw/rust/buses/flexray"@,
            "hw/rust/buses/ethernet"@,
        ],
        banned_rules::rule_table()[18].inc_dirs == seq![
            "hw/rust/examples/reference-peripheral"@,
        ],
        banned_rules::rule_table()[18].exc_list.len() == 0,
        banned_rules::rule_table()[19].inc_dirs == seq![
            "hw/rust/examples/reference-peripheral"@,
        ],
        banned_rules::rule_table()[19].exc_list.len() == 0,
        banned_rules::rule_table()[20].inc_dirs == seq![
            "hw/rust/examples/reference-peripheral"@,
        ],
        banned_rules::rule_table()[20].exc_list.len() == 0,
        banned_rules::rule_table()[21].inc_dirs == seq![
            "hw/rust/buses"@,
            "hw/rust/observability"@,
            "hw/rust/mcu"@,
        ],
        banned_rules::rule_table()[21].exc_list.len() == 0,
{
}

/// What a check finds in a file: nothing in one that it does not look at, and otherwise what it finds
/// in its lines.
pub proof fn law_checks_of_files(path: Seq<char>, content: Seq<char>)
    ensures
        !text::is_rust_path(path) ==> RustMagicNumbersLint.found_in(path, content) == Some(
            Seq::<FindingView>::empty(),
        ) && RustSafeSerializationLint.found_in(path, content) == Some(Seq::<FindingView>::empty())
            && QomTypeInfoLint.found_in(path, content) == Some(Seq::<FindingView>::empty())
            && RustBannedPatternsLint.found_in(path, content) == Some(Seq::<FindingView>::empty()),
        text::has_suffix(path, "_generated.rs"@) ==> RustSafeSerializationLint.found_in(
            path,
            content,
        ) == Some(Seq::<FindingView>::empty()),
        text::is_rust_path(path) && !text::has_suffix(path, "_generated.rs"@)
            ==> RustSafeSerializationLint.found_in(path, content) == Some(
            safe_serialization::copies_found(
                text::lines_of(content),
                text::lines_of(content).len() as int,
            ),
        ),
        magic_numbers::is_checked(path) ==> RustMagicNumbersLint.found_in(path, content)
            == magic_numbers::lines_found(
            text::lines_of(content),
            text::lines_of(content).len() as int,
        ),
{
}

/// The state of a source is found in its statics first, then in its lazy ones, then in those of each
/// thread; none of them is left out.
pub proof fn law_state_in_a_source(items: Seq<StaticItemView>, lines: Seq<Seq<char>>, f: FindingView)
    ensures
        ({
            let found = static_state::found_in_source(items, lines);
            let n = lines.len() as int;
            let a = static_state::statics_found(items, lines, items.len() as int);
            let b = static_state::macros_found(lines, "lazy_static!"@, n);
            let c = static_state::macros_found(lines, "thread_local!"@, n);
            &&& found.len() == a.len() + b.len() + c.len()
            &&& found.contains(f) <==> a.contains(f) || b.contains(f) || c.contains(f)
            &&& found.take(a.len() as int) == a
        }),
{
    let found = static_state::found_in_source(items, lines);
    let n = lines.len() as int;
    let a = static_state::statics_found(items, lines, items.len() as int);
    let b = static_state::macros_found(lines, "lazy_static!"@, n);
    let c = static_state::macros_found(lines, "thread_local!"@, n);
    assert(found.take(a.len() as int) =~= a);
    if found.contains(f) {
        let i = found.index_of(f);
        if i < a.len() {
            assert(a[i] == f);
        } else if i < a.len() + b.len() {
            assert(b[i - a.len()] == f);
        } else {
            assert(c[i - a.len() - b.len()] == f);
        }
    }
    if a.contains(f) {
        assert(found[a.index_of(f)] == f);
    }
    if b.contains(f) {
        assert(found[a.len() + b.index_of(f)] == f);
    }
    if c.contains(f) {
        assert(found[a.len() + b.len() + c.index_of(f)] == f);
    }
}

/// The emulator offers these hooks, and the clock this one.
pub proof fn law_hooks_of_the_emulator()
    ensures
        verify_exports::emulator_exports() == seq![
            "virtmcu_cpu_set_tcg_hook"@,
            "virtmcu_cpu_set_halt_hook"@,
            "virtmcu_set_irq_hook"@,
            "virtmcu_kick_first_cpu_for_quantum"@,
            "virtmcu_vcpu_should_yield"@,
            "virtmcu_is_bql_locked"@,
            "virtmcu_safe_bql_unlock"@,
            "virtmcu_safe_bql_lock"@,
            "virtmcu_safe_bql_force_unlock"@,
            "virtmcu_safe_bql_force_lock"@,
        ],
        verify_exports::clock_plugin_exports() == seq!["clock_cpu_halt_cb"@],
{
}

/// A name is what the first match has in its first group, without blanks around it.
pub proof fn law_first_groups(before: Seq<char>, whole: Seq<char>, part: Seq<char>)
    ensures
        qom_type_info::first_group(
            seq![patterns::CapturedView { before, groups: seq![whole, part] }],
        ) == Some(text::trimmed(part)),
        qom_type_info::first_group(Seq::empty()) is None,
{
    let found = seq![patterns::CapturedView { before, groups: seq![whole, part] }];
    assert(found[0].groups.len() == 2);
}

/// The numbers of a line are looked for in front of its comment; a line without a comment is looked at
/// whole.
pub proof fn law_comments_are_not_looked_at(
    code: Seq<char>,
    comment: Seq<char>,
    numbers: Seq<Seq<char>>,
    number: int,
)
    requires
        forall|j: int|
            0 <= j < code.len() ==> !#[trigger] text::stands_at(code + "//"@ + comment, "//"@, j),
        patterns::regex_is_match_of(magic_numbers::CONSTANT_PATTERN@, code) == Some(false),
        patterns::regex_is_match_of(magic_numbers::VARIANT_PATTERN@, code) == Some(false),
        patterns::regex_find_all_of(magic_numbers::NUMBER_PATTERN@, code) == Some(numbers),
        !text::occurs(code, "align("@),
        !text::occurs(code, "error_setg!"@),
    ensures
        ({
            let line = code + "//"@ + comment;
            &&& !text::occurs(line, "virtmcu-allow: magic_numbers"@) ==> magic_numbers::line_found(
                line,
                number,
            ) == magic_numbers::numbers_found(code, numbers, numbers.len() as int, number)
            &&& text::occurs(line, "virtmcu-allow: magic_numbers"@) ==> magic_numbers::line_found(
                line,
                number,
            ) == Some(Seq::<FindingView>::empty())
        }),
        !text::occurs(code, "//"@) && !text::occurs(code, "virtmcu-allow: magic_numbers"@)
            ==> magic_numbers::line_found(code, number) == magic_numbers::numbers_found(
            code,
            numbers,
            numbers.len() as int,
            number,
        ),
{
    reveal_strlit("//");
    let line = code + "//"@ + comment;
    text_laws::law_first_occurrence(code, "//"@, comment, ""@);
    law_lines_left_alone(line, code, false, false);
    law_lines_left_alone(code, code, false, false);
    if !text::occurs(code, "//"@) {
        text_laws::law_no_occurrence(code, "//"@, ""@);
    }
}

/// A description of a type is looked at in what stands between its braces; a mismatch is found on its
/// line and says what the size is.
pub proof fn law_descriptions(
    before: Seq<char>,
    whole: Seq<char>,
    inner: Seq<char>,
    parents: Seq<patterns::CapturedView>,
    sizes: Seq<patterns::CapturedView>,
)
    requires
        patterns::regex_captures_of(qom_type_info::PARENT_PATTERN@, inner) == Some(parents),
        patterns::regex_captures_of(qom_type_info::CLASS_SIZE_PATTERN@, inner) == Some(sizes),
    ensures
        ({
            let m = patterns::CapturedView { before, groups: seq![whole, inner] };
            let p = qom_type_info::first_group(parents);
            let c = qom_type_info::first_group(sizes);
            let found = qom_type_info::description_found(m);
            &&& found is Some
            &&& !qom_type_info::is_mismatch(p, c) ==> found->0.len() == 0
            &&& qom_type_info::is_mismatch(p, c) ==> found->0.len() == 1 && found->0[0].line
                == findings::line_after(before) && found->0[0].message
                == "TypeInfo has parent TYPE_SYS_BUS_DEVICE but class_size is '"@ + c->0
                + "'.\n  Fix: Set class_size to core::mem::size_of::<virtmcu_qom::qdev::SysBusDeviceClass>()"@
        }),
{
    let m = patterns::CapturedView { before, groups: seq![whole, inner] };
    assert(m.groups.len() == 2 && m.groups[1] == inner);
}

} // verus!
