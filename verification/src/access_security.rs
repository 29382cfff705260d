//! Channel access security: the ACF (access control file) format and the
//! decision which access a user on a host gets through an access security
//! group.
use vstd::prelude::*;
use crate::name_map::NameMap;
use crate::scan::{
    digits_end, digits_value, digits_value_upto, is_word_char, lemma_digits_end, lemma_word_end,
    lemma_ws_end, read_digits_end, read_word_end, skip_ws_comments, word_end, ws_end,
};
use crate::text::{
    char_is_alphanumeric, chars_eq_str, chars_of, find_char, find_from, is_white, lemma_find_from,
    seq_ascii_lower, sub_string, sub_vec, to_ascii_lower, unicode_alphanumeric, char_is_white,
    push_str, string_of_vec,
};

verus! {

/// Access level for a channel.
#[derive(Clone, Copy, Debug, PartialEq, Eq, Structural)]
pub enum AccessLevel {
    NoAccess,
    Read,
    ReadWrite,
}

/// A single access rule within an ASG.
#[derive(Debug, Clone)]
pub struct AccessRule {
    pub level: u8,
    /// true = WRITE rule, false = READ rule
    pub write: bool,
    pub uag: Vec<String>,
    pub hag: Vec<String>,
}

/// Access Security Group.
#[derive(Debug, Clone)]
pub struct AccessSecurityGroup {
    pub rules: Vec<AccessRule>,
}

/// Access Security Configuration parsed from an ACF file.
#[derive(Debug)]
pub struct AccessSecurityConfig {
    pub uag: NameMap<Vec<String>>,
    pub hag: NameMap<Vec<String>>,
    pub asg: NameMap<AccessSecurityGroup>,
    pub unknown_access: AccessLevel,
}

/// What a rule says: its level, whether it grants writing, and the user and
/// host group names it is restricted to.
pub struct RuleModel {
    pub level: u8,
    pub write: bool,
    pub uag: Seq<Seq<char>>,
    pub hag: Seq<Seq<char>>,
}

/// What a configuration says: group members by group name, rules by ASG
/// name, and the level for unknown clients.
pub struct AcfModel {
    pub uag: Map<Seq<char>, Seq<Seq<char>>>,
    pub hag: Map<Seq<char>, Seq<Seq<char>>>,
    pub asg: Map<Seq<char>, Seq<RuleModel>>,
    pub unknown_access: AccessLevel,
}

/// Why an ACF text was refused.
#[derive(Debug, Clone, PartialEq, Eq)]
pub enum AcfError {
    /// A top-level word other than `UAG`, `HAG` or `ASG`.
    UnexpectedKeyword(String),
    /// A group name did not start with `(`.
    ExpectedParen,
    /// A member list did not start with `{`.
    ExpectedBrace,
    /// A member list ran to the end of the text.
    UnterminatedList,
    /// An ASG body did not start with `{`.
    ExpectedAsgBrace,
    /// An ASG body ran to the end of the text.
    UnterminatedAsg,
    /// A `RULE` keyword was not followed by `(`.
    ExpectedRuleParen,
    /// A rule body holds a character that is neither `}` nor part of a
    /// word, where the scanner makes no progress (`parse_acf` is not given
    /// such a text; `acf_scan_completes` tells them apart).
    Stuck,
}

/// Spec-level counterpart of [`AcfError`]; `Stuck` marks a text on which
/// the scanner makes no more progress.
pub enum AcfFail {
    Keyword(Seq<char>),
    ExpectedParen,
    ExpectedBrace,
    UnterminatedList,
    ExpectedAsgBrace,
    UnterminatedAsg,
    ExpectedRuleParen,
    Stuck,
}

impl AcfError {
    pub open spec fn model(&self) -> AcfFail {
        match self {
            AcfError::UnexpectedKeyword(w) => AcfFail::Keyword(w@),
            AcfError::ExpectedParen => AcfFail::ExpectedParen,
            AcfError::ExpectedBrace => AcfFail::ExpectedBrace,
            AcfError::UnterminatedList => AcfFail::UnterminatedList,
            AcfError::ExpectedAsgBrace => AcfFail::ExpectedAsgBrace,
            AcfError::UnterminatedAsg => AcfFail::UnterminatedAsg,
            AcfError::ExpectedRuleParen => AcfFail::ExpectedRuleParen,
            AcfError::Stuck => AcfFail::Stuck,
        }
    }
}

/// The message of a refusal, as the server reports it.
pub open spec fn acf_error_text(e: AcfFail) -> Seq<char> {
    match e {
        AcfFail::Keyword(w) => "ACF: unexpected keyword '"@ + w + "'"@,
        AcfFail::ExpectedParen => "ACF: expected '('"@,
        AcfFail::ExpectedBrace => "ACF: expected '{'"@,
        AcfFail::UnterminatedList => "ACF: unterminated '{'"@,
        AcfFail::ExpectedAsgBrace => "ACF: expected '{' after ASG name"@,
        AcfFail::UnterminatedAsg => "ACF: unterminated ASG"@,
        AcfFail::ExpectedRuleParen => "ACF: expected '(' after RULE"@,
        AcfFail::Stuck => "ACF: unreadable character in RULE body"@,
    }
}

impl AcfError {
    /// The message of this refusal.
    pub fn message(&self) -> (r: String)
        ensures
            r@ == acf_error_text(self.model()),
    {
        match self {
            AcfError::UnexpectedKeyword(w) => {
                let mut v: Vec<char> = Vec::new();
                push_str(&mut v, "ACF: unexpected keyword '");
                push_str(&mut v, w.as_str());
                push_str(&mut v, "'");
                string_of_vec(&v)
            },
            AcfError::ExpectedParen => "ACF: expected '('".to_string(),
            AcfError::ExpectedBrace => "ACF: expected '{'".to_string(),
            AcfError::UnterminatedList => "ACF: unterminated '{'".to_string(),
            AcfError::ExpectedAsgBrace => "ACF: expected '{' after ASG name".to_string(),
            AcfError::UnterminatedAsg => "ACF: unterminated ASG".to_string(),
            AcfError::ExpectedRuleParen => "ACF: expected '(' after RULE".to_string(),
            AcfError::Stuck => "ACF: unreadable character in RULE body".to_string(),
        }
    }
}

pub open spec fn strings_view(v: Seq<String>) -> Seq<Seq<char>> {
    Seq::new(v.len(), |i: int| v[i]@)
}

impl AccessRule {
    pub open spec fn model(&self) -> RuleModel {
        RuleModel {
            level: self.level,
            write: self.write,
            uag: strings_view(self.uag@),
            hag: strings_view(self.hag@),
        }
    }
}

impl AccessSecurityGroup {
    pub open spec fn model(&self) -> Seq<RuleModel> {
        Seq::new(self.rules@.len(), |i: int| self.rules@[i].model())
    }
}

impl AccessSecurityConfig {
    pub open spec fn wf(&self) -> bool {
        self.uag.wf() && self.hag.wf() && self.asg.wf()
    }

    pub open spec fn model(&self) -> AcfModel {
        AcfModel {
            uag: group_members(self.uag.map()),
            hag: group_members(self.hag.map()),
            asg: self.asg.map().map_values(|g: AccessSecurityGroup| g.model()),
            unknown_access: self.unknown_access,
        }
    }
}

// ---------------------------------------------------------------------
// Access decision
// ---------------------------------------------------------------------
/// `who` is listed in one of the groups named in `names`; an empty name
/// list means no restriction.
pub open spec fn in_some_group(
    groups: Map<Seq<char>, Seq<Seq<char>>>,
    names: Seq<Seq<char>>,
    who: Seq<char>,
) -> bool {
    names.len() == 0 || exists|i: int|
        0 <= i < names.len() && #[trigger] groups.contains_key(names[i]) && groups[names[i]].contains(
            who,
        )
}

pub open spec fn rule_applies(m: AcfModel, r: RuleModel, host: Seq<char>, user: Seq<char>) -> bool {
    in_some_group(m.uag, r.uag, user) && in_some_group(m.hag, r.hag, host)
}

/// The access that `user` on `host` gets through the ASG `asg_name`: an
/// unknown ASG falls back to `DEFAULT`, no usable ASG grants everything, an
/// unidentified client gets the configured level, an ASG without rules
/// grants everything, and otherwise the strongest applying rule decides.
pub open spec fn access_of(m: AcfModel, asg_name: Seq<char>, host: Seq<char>, user: Seq<char>) -> AccessLevel {
    let name = if m.asg.contains_key(asg_name) {
        asg_name
    } else {
        "DEFAULT"@
    };
    if !m.asg.contains_key(name) {
        AccessLevel::ReadWrite
    } else if user.len() == 0 || host.len() == 0 {
        m.unknown_access
    } else {
        rules_access(m, m.asg[name], host, user)
    }
}

/// The access granted by a rule list: the strongest applying rule decides;
/// an empty list grants everything.
pub open spec fn rules_access(m: AcfModel, rules: Seq<RuleModel>, host: Seq<char>, user: Seq<char>) -> AccessLevel {
    if rules.len() == 0 {
        AccessLevel::ReadWrite
    } else if exists|i: int| 0 <= i < rules.len() && rules[i].write && #[trigger] rule_applies(m, rules[i], host, user) {
        AccessLevel::ReadWrite
    } else if exists|i: int| 0 <= i < rules.len() && #[trigger] rule_applies(m, rules[i], host, user) {
        AccessLevel::Read
    } else {
        AccessLevel::NoAccess
    }
}


/// Whether `who` is listed in one of the groups named in `names`.
fn listed_in(groups: &NameMap<Vec<String>>, names: &Vec<String>, who: &str) -> (r: bool)
    requires
        groups.wf(),
    ensures
        r == in_some_group(group_members(groups.map()), strings_view(names@), who@),
{
    let ghost gm = group_members(groups.map());
    let ghost nv = strings_view(names@);
    if names.len() == 0 {
        return true;
    }
    let mut i: usize = 0;
    while i < names.len()
        invariant
            groups.wf(),
            i <= names@.len(),
            nv == strings_view(names@),
            gm == group_members(groups.map()),
            forall|k: int| 0 <= k < i ==> !(#[trigger] gm.contains_key(nv[k]) && gm[nv[k]].contains(who@)),
        decreases names.len() - i,
    {
        match groups.get(names[i].as_str()) {
            Some(members) => {
                proof {
                    assert(nv[i as int] == names@[i as int]@);
                    assert(groups.map().contains_key(nv[i as int]));
                    assert(gm.contains_key(nv[i as int]));
                    assert(gm[nv[i as int]] == strings_view(groups.map()[nv[i as int]]@));
                }
                let mut j: usize = 0;
                while j < members.len()
                    invariant
                        j <= members@.len(),
                        i < names@.len(),
                        nv == strings_view(names@),
                        gm == group_members(groups.map()),
                        gm.contains_key(nv[i as int]),
                        gm[nv[i as int]] == strings_view(members@),
                        forall|k: int| 0 <= k < j ==> members@[k]@ != who@,
                    decreases members.len() - j,
                {
                    if crate::text::str_eq(members[j].as_str(), who) {
                        proof {
                            assert(gm[nv[i as int]][j as int] == who@);
                            assert(gm[nv[i as int]].contains(who@));
                        }
                        return true;
                    }
                    j = j + 1;
                }
                proof {
                    if gm[nv[i as int]].contains(who@) {
                        let k = choose|k: int| 0 <= k < gm[nv[i as int]].len() && gm[nv[i as int]][k] == who@;
                        assert(members@[k]@ == who@);
                    }
                }
            },
            None => {
                proof {
                    assert(nv[i as int] == names@[i as int]@);
                    assert(!gm.contains_key(nv[i as int]));
                }
            },
        }
        i = i + 1;
    }
    false
}

/// The members of each group, as character sequences.
pub open spec fn group_members(m: Map<Seq<char>, Vec<String>>) -> Map<Seq<char>, Seq<Seq<char>>> {
    m.map_values(|v: Vec<String>| strings_view(v@))
}

impl AccessSecurityConfig {
    /// Check access for a given ASG, hostname, and username.
    pub fn check_access(&self, asg_name: &str, host: &str, user: &str) -> (r: AccessLevel)
        requires
            self.wf(),
        ensures
            r == access_of(self.model(), asg_name@, host@, user@),
    {
        let ghost m = self.model();
        let asg = match self.asg.get(asg_name) {
            Some(a) => a,
            None => {
                match self.asg.get("DEFAULT") {
                    Some(a) => a,
                    None => return AccessLevel::ReadWrite,
                }
            },
        };
        let ghost name = if m.asg.contains_key(asg_name@) {
            asg_name@
        } else {
            "DEFAULT"@
        };
        assert(m.asg[name] == asg.model());
        let user_chars = chars_of(user);
        let host_chars = chars_of(host);
        if user_chars.len() == 0 || host_chars.len() == 0 {
            return self.unknown_access;
        }
        let ghost rules = asg.model();
        let mut can_read = false;
        let mut can_write = false;
        let mut i: usize = 0;
        while i < asg.rules.len()
            invariant
                self.wf(),
                i <= asg.rules@.len(),
                m == self.model(),
                rules == asg.model(),
                m.asg.contains_key(name) && m.asg[name] == rules && user@.len() > 0 && host@.len() > 0,
                name == (if m.asg.contains_key(asg_name@) { asg_name@ } else { "DEFAULT"@ }),
                can_write == exists|k: int| 0 <= k < i && rules[k].write && #[trigger] rule_applies(m, rules[k], host@, user@),
                can_read == exists|k: int| 0 <= k < i && #[trigger] rule_applies(m, rules[k], host@, user@),
            decreases asg.rules.len() - i,
        {
            let rule = &asg.rules[i];
            let user_match = listed_in(&self.uag, &rule.uag, user);
            let host_match = listed_in(&self.hag, &rule.hag, host);
            assert(rules[i as int] == rule.model());
            assert(rule_applies(m, rules[i as int], host@, user@) == (user_match && host_match));
            if user_match && host_match {
                if rule.write {
                    can_write = true;
                    can_read = true;
                } else {
                    can_read = true;
                }
            }
            i = i + 1;
        }
        if asg.rules.len() == 0 {
            return AccessLevel::ReadWrite;
        }
        assert(rules.len() == asg.rules@.len());
        if can_write {
            AccessLevel::ReadWrite
        } else if can_read {
            AccessLevel::Read
        } else {
            AccessLevel::NoAccess
        }
    }
}

// ---------------------------------------------------------------------
// ACF grammar
// ---------------------------------------------------------------------
/// The characters of `t` other than whitespace.
pub open spec fn drop_white(t: Seq<char>) -> Seq<char>
    decreases t.len(),
{
    if t.len() == 0 {
        t
    } else if is_white(t.last()) {
        drop_white(t.drop_last())
    } else {
        drop_white(t.drop_last()).push(t.last())
    }
}

/// `( name )`: the name without whitespace, read up to the first `)`.
pub open spec fn paren_name(s: Seq<char>, p: int) -> Option<(Seq<char>, int)> {
    let q = ws_end(s, p);
    if q >= s.len() || s[q] != '(' {
        None
    } else {
        let r = ws_end(s, q + 1);
        let e = find_from(s, r, ')');
        Some((drop_white(s.subrange(r, e)), if e < s.len() { e + 1 } else { s.len() as int }))
    }
}

pub proof fn lemma_paren_name(s: Seq<char>, p: int)
    requires
        0 <= p <= s.len(),
    ensures
        paren_name(s, p) matches Some((n, q)) ==> p < q <= s.len(),
{
    lemma_ws_end(s, p);
    let q = ws_end(s, p);
    if q < s.len() && s[q] == '(' {
        lemma_ws_end(s, q + 1);
        lemma_find_from(s, ws_end(s, q + 1), ')');
    }
}

/// Characters that make up a group member name.
pub open spec fn is_member_char(c: char) -> bool {
    unicode_alphanumeric(c) || c == '_' || c == '.' || c == '-'
}

pub open spec fn push_nonempty(items: Seq<Seq<char>>, cur: Seq<char>) -> Seq<Seq<char>> {
    if cur.len() > 0 {
        items.push(cur)
    } else {
        items
    }
}

/// The members of a `{ a, b }` list read from `p`, with the list so far.
pub open spec fn list_from(s: Seq<char>, p: int, items: Seq<Seq<char>>, cur: Seq<char>) -> Result<(Seq<Seq<char>>, int), AcfFail>
    decreases s.len() - p,
{
    if p < 0 || p > s.len() {
        Err(AcfFail::UnterminatedList)
    } else {
        let r = ws_end(s, p);
        proof {
            lemma_ws_end(s, p);
        }
        if r >= s.len() {
            Err(AcfFail::UnterminatedList)
        } else if s[r] == '}' {
            Ok((push_nonempty(items, cur), r + 1))
        } else if s[r] == ',' {
            list_from(s, r + 1, push_nonempty(items, cur), seq![])
        } else if is_member_char(s[r]) {
            list_from(s, r + 1, items, cur.push(s[r]))
        } else {
            list_from(s, r + 1, items, cur)
        }
    }
}

pub open spec fn brace_list(s: Seq<char>, p: int) -> Result<(Seq<Seq<char>>, int), AcfFail> {
    let q = ws_end(s, p);
    if q >= s.len() || s[q] != '{' {
        Err(AcfFail::ExpectedBrace)
    } else {
        list_from(s, q + 1, seq![], seq![])
    }
}

pub proof fn lemma_list_from(s: Seq<char>, p: int, items: Seq<Seq<char>>, cur: Seq<char>)
    requires
        0 <= p <= s.len(),
    ensures
        list_from(s, p, items, cur) matches Ok((l, q)) ==> p < q <= s.len(),
    decreases s.len() - p,
{
    lemma_ws_end(s, p);
    let r = ws_end(s, p);
    if r < s.len() && s[r] != '}' {
        if s[r] == ',' {
            lemma_list_from(s, r + 1, push_nonempty(items, cur), seq![]);
        } else if is_member_char(s[r]) {
            lemma_list_from(s, r + 1, items, cur.push(s[r]));
        } else {
            lemma_list_from(s, r + 1, items, cur);
        }
    }
}

pub proof fn lemma_brace_list(s: Seq<char>, p: int)
    requires
        0 <= p <= s.len(),
    ensures
        brace_list(s, p) matches Ok((l, q)) ==> p < q <= s.len(),
{
    lemma_ws_end(s, p);
    let q = ws_end(s, p);
    if q < s.len() && s[q] == '{' {
        lemma_list_from(s, q + 1, seq![], seq![]);
    }
}

/// The level of a rule: its digits as a `u8`, or 1 when they are missing or
/// too large.
pub open spec fn rule_level(t: Seq<char>) -> u8 {
    if t.len() > 0 && digits_value(t) <= 255 {
        digits_value(t) as u8
    } else {
        1
    }
}

/// The `UAG(..)` / `HAG(..)` entries of a rule body read from `p`.
pub open spec fn rule_body(s: Seq<char>, p: int, uag: Seq<Seq<char>>, hag: Seq<Seq<char>>) -> Result<(Seq<Seq<char>>, Seq<Seq<char>>, int), AcfFail>
    decreases s.len() - p,
{
    if p < 0 || p > s.len() {
        Err(AcfFail::Stuck)
    } else {
        let r = ws_end(s, p);
        proof {
            lemma_ws_end(s, p);
        }
        if r >= s.len() {
            Ok((uag, hag, r))
        } else if s[r] == '}' {
            Ok((uag, hag, r + 1))
        } else {
            let we = word_end(s, r);
            proof {
                lemma_word_end(s, r);
            }
            let kw = s.subrange(r, we);
            if kw == "UAG"@ || kw == "HAG"@ {
                proof {
                    lemma_paren_name(s, we);
                }
                match paren_name(s, we) {
                    None => Err(AcfFail::ExpectedParen),
                    Some((n, q)) => if kw == "UAG"@ {
                        rule_body(s, q, uag.push(n), hag)
                    } else {
                        rule_body(s, q, uag, hag.push(n))
                    },
                }
            } else if we == r {
                Err(AcfFail::Stuck)
            } else {
                rule_body(s, we, uag, hag)
            }
        }
    }
}

pub proof fn lemma_rule_body(s: Seq<char>, p: int, uag: Seq<Seq<char>>, hag: Seq<Seq<char>>)
    requires
        0 <= p <= s.len(),
    ensures
        rule_body(s, p, uag, hag) matches Ok((a, b, q)) ==> p <= q <= s.len(),
    decreases s.len() - p,
{
    lemma_ws_end(s, p);
    let r = ws_end(s, p);
    if r < s.len() && s[r] != '}' {
        lemma_word_end(s, r);
        let we = word_end(s, r);
        let kw = s.subrange(r, we);
        lemma_paren_name(s, we);
        if kw == "UAG"@ || kw == "HAG"@ {
            match paren_name(s, we) {
                None => {},
                Some((n, q)) => if kw == "UAG"@ {
                    lemma_rule_body(s, q, uag.push(n), hag);
                } else {
                    lemma_rule_body(s, q, uag, hag.push(n));
                },
            }
        } else if we != r {
            lemma_rule_body(s, we, uag, hag);
        }
    }
}

/// `RULE(level, READ|WRITE) { UAG(..) HAG(..) }` read from `p` (just after
/// the keyword).
pub open spec fn rule_at(s: Seq<char>, p: int) -> Result<(RuleModel, int), AcfFail> {
    let q = ws_end(s, p);
    if q >= s.len() || s[q] != '(' {
        Err(AcfFail::ExpectedRuleParen)
    } else {
        let a = ws_end(s, q + 1);
        let d = digits_end(s, a);
        let level = rule_level(s.subrange(a, d));
        let b = ws_end(s, d);
        let b2 = if b < s.len() && s[b] == ',' { b + 1 } else { b };
        let c = ws_end(s, b2);
        let ce = word_end(s, c);
        let write = seq_ascii_lower(s.subrange(c, ce)) == seq_ascii_lower("WRITE"@);
        let g = ws_end(s, ce);
        let g2 = if g < s.len() && s[g] == ')' { g + 1 } else { g };
        let h = ws_end(s, g2);
        if h < s.len() && s[h] == '{' {
            match rule_body(s, h + 1, seq![], seq![]) {
                Err(e) => Err(e),
                Ok((uag, hag, e)) => Ok((RuleModel { level, write, uag, hag }, e)),
            }
        } else {
            Ok((RuleModel { level, write, uag: seq![], hag: seq![] }, h))
        }
    }
}

pub proof fn lemma_rule_at(s: Seq<char>, p: int)
    requires
        0 <= p <= s.len(),
    ensures
        rule_at(s, p) matches Ok((m, q)) ==> p <= q <= s.len(),
{
    lemma_ws_end(s, p);
    let q = ws_end(s, p);
    if q < s.len() && s[q] == '(' {
        lemma_ws_end(s, q + 1);
        let a = ws_end(s, q + 1);
        lemma_digits_end(s, a);
        let d = digits_end(s, a);
        lemma_ws_end(s, d);
        let b = ws_end(s, d);
        let b2 = if b < s.len() && s[b] == ',' { b + 1 } else { b };
        lemma_ws_end(s, b2);
        let c = ws_end(s, b2);
        lemma_word_end(s, c);
        let ce = word_end(s, c);
        lemma_ws_end(s, ce);
        let g = ws_end(s, ce);
        let g2 = if g < s.len() && s[g] == ')' { g + 1 } else { g };
        lemma_ws_end(s, g2);
        let h = ws_end(s, g2);
        if h < s.len() && s[h] == '{' {
            lemma_rule_body(s, h + 1, seq![], seq![]);
        }
    }
}

/// The rules of an ASG body read from `p`, with the rules so far.
pub open spec fn asg_from(s: Seq<char>, p: int, rules: Seq<RuleModel>) -> Result<(Seq<RuleModel>, int), AcfFail>
    decreases s.len() - p,
{
    if p < 0 || p > s.len() {
        Err(AcfFail::UnterminatedAsg)
    } else {
        let r = ws_end(s, p);
        proof {
            lemma_ws_end(s, p);
        }
        if r >= s.len() {
            Err(AcfFail::UnterminatedAsg)
        } else if s[r] == '}' {
            Ok((rules, r + 1))
        } else {
            let we = word_end(s, r);
            proof {
                lemma_word_end(s, r);
            }
            if s.subrange(r, we) == "RULE"@ {
                proof {
                    lemma_rule_at(s, we);
                    reveal_strlit("RULE");
                    assert(s.subrange(r, we).len() == 4);
                }
                match rule_at(s, we) {
                    Err(e) => Err(e),
                    Ok((m, q)) => asg_from(s, q, rules.push(m)),
                }
            } else if we == r {
                asg_from(s, r + 1, rules)
            } else {
                asg_from(s, we, rules)
            }
        }
    }
}

pub open spec fn asg_body(s: Seq<char>, p: int) -> Result<(Seq<RuleModel>, int), AcfFail> {
    let q = ws_end(s, p);
    if q >= s.len() || s[q] != '{' {
        Err(AcfFail::ExpectedAsgBrace)
    } else {
        asg_from(s, q + 1, seq![])
    }
}

pub proof fn lemma_asg_from(s: Seq<char>, p: int, rules: Seq<RuleModel>)
    requires
        0 <= p <= s.len(),
    ensures
        asg_from(s, p, rules) matches Ok((l, q)) ==> p < q <= s.len(),
    decreases s.len() - p,
{
    lemma_ws_end(s, p);
    let r = ws_end(s, p);
    if r < s.len() && s[r] != '}' {
        lemma_word_end(s, r);
        let we = word_end(s, r);
        if s.subrange(r, we) == "RULE"@ {
            lemma_rule_at(s, we);
            reveal_strlit("RULE");
            assert(s.subrange(r, we).len() == 4);
            match rule_at(s, we) {
                Err(e) => {},
                Ok((m, q)) => lemma_asg_from(s, q, rules.push(m)),
            }
        } else if we == r {
            lemma_asg_from(s, r + 1, rules);
        } else {
            lemma_asg_from(s, we, rules);
        }
    }
}

pub proof fn lemma_asg_body(s: Seq<char>, p: int)
    requires
        0 <= p <= s.len(),
    ensures
        asg_body(s, p) matches Ok((l, q)) ==> p < q <= s.len(),
{
    lemma_ws_end(s, p);
    let q = ws_end(s, p);
    if q < s.len() && s[q] == '{' {
        lemma_asg_from(s, q + 1, seq![]);
    }
}

pub open spec fn empty_acf() -> AcfModel {
    AcfModel {
        uag: Map::empty(),
        hag: Map::empty(),
        asg: Map::empty(),
        unknown_access: AccessLevel::Read,
    }
}

/// The configuration described by `s[p..]`, on top of `m`.
pub open spec fn acf_from(s: Seq<char>, p: int, m: AcfModel) -> Result<AcfModel, AcfFail>
    decreases s.len() - p,
{
    if p < 0 || p >= s.len() {
        Ok(m)
    } else {
        let q = ws_end(s, p);
        proof {
            lemma_ws_end(s, p);
        }
        let e = word_end(s, q);
        proof {
            lemma_word_end(s, q);
        }
        let w = s.subrange(q, e);
        if w == "UAG"@ || w == "HAG"@ {
            proof {
                lemma_paren_name(s, e);
            }
            match paren_name(s, e) {
                None => Err(AcfFail::ExpectedParen),
                Some((n, p2)) => {
                    proof {
                        lemma_brace_list(s, p2);
                    }
                    match brace_list(s, p2) {
                        Err(f) => Err(f),
                        Ok((items, p3)) => if w == "UAG"@ {
                            acf_from(s, p3, AcfModel { uag: m.uag.insert(n, items), ..m })
                        } else {
                            acf_from(s, p3, AcfModel { hag: m.hag.insert(n, items), ..m })
                        },
                    }
                },
            }
        } else if w == "ASG"@ {
            proof {
                lemma_paren_name(s, e);
            }
            match paren_name(s, e) {
                None => Err(AcfFail::ExpectedParen),
                Some((n, p2)) => {
                    proof {
                        lemma_asg_body(s, p2);
                    }
                    match asg_body(s, p2) {
                        Err(f) => Err(f),
                        Ok((rules, p3)) => acf_from(
                            s,
                            p3,
                            AcfModel { asg: m.asg.insert(n, rules), ..m },
                        ),
                    }
                },
            }
        } else if w.len() == 0 {
            Ok(m)
        } else {
            Err(AcfFail::Keyword(w))
        }
    }
}

/// The meaning of an ACF text: a configuration, or why it is refused.
pub open spec fn acf_meaning(s: Seq<char>) -> Result<AcfModel, AcfFail> {
    acf_from(s, 0, empty_acf())
}

/// The scanner never gets stuck on `s` (it is stuck only inside a rule body
/// at a character that is neither `}` nor a word).
pub open spec fn acf_terminates(s: Seq<char>) -> bool {
    !(acf_meaning(s) matches Err(AcfFail::Stuck))
}

// ---------------------------------------------------------------------
// ACF scanner
// ---------------------------------------------------------------------
fn read_paren_name(s: &Vec<char>, p: usize) -> (r: Option<(String, usize)>)
    requires
        p <= s.len(),
    ensures
        match r {
            Some((n, q)) => paren_name(s@, p as int) == Some((n@, q as int)),
            None => paren_name(s@, p as int) is None,
        },
{
    let q = skip_ws_comments(s, p);
    if q >= s.len() || s[q] != '(' {
        return None;
    }
    let r = skip_ws_comments(s, q + 1);
    let e = find_char(s, r, ')');
    let mut name: Vec<char> = Vec::new();
    let mut i: usize = r;
    while i < e
        invariant
            r <= i <= e <= s.len(),
            name@ == drop_white(s@.subrange(r as int, i as int)),
        decreases e - i,
    {
        let c = s[i];
        if !char_is_white(c) {
            name.push(c);
        }
        i = i + 1;
        assert(s@.subrange(r as int, i as int).drop_last() =~= s@.subrange(r as int, i - 1));
    }
    let pos = if e < s.len() {
        e + 1
    } else {
        s.len()
    };
    Some((string_of_vec(&name), pos))
}

fn read_brace_list(s: &Vec<char>, p: usize) -> (r: Result<(Vec<String>, usize), AcfError>)
    requires
        p <= s.len(),
    ensures
        match r {
            Ok((items, q)) => brace_list(s@, p as int) == Ok::<(Seq<Seq<char>>, int), AcfFail>((strings_view(items@), q as int)),
            Err(e) => brace_list(s@, p as int) == Err::<(Seq<Seq<char>>, int), AcfFail>(e.model()),
        },
{
    let q = skip_ws_comments(s, p);
    if q >= s.len() || s[q] != '{' {
        return Err(AcfError::ExpectedBrace);
    }
    let mut items: Vec<String> = Vec::new();
    let mut cur: Vec<char> = Vec::new();
    let mut pos: usize = q + 1;
    assert(strings_view(items@) =~= Seq::<Seq<char>>::empty());
    assert(cur@ =~= Seq::<char>::empty());
    loop
        invariant
            q < pos <= s.len(),
            brace_list(s@, p as int) == list_from(s@, pos as int, strings_view(items@), cur@),
        decreases s.len() - pos,
    {
        let r = skip_ws_comments(s, pos);
        proof {
            lemma_ws_end(s@, pos as int);
        }
        if r >= s.len() {
            return Err(AcfError::UnterminatedList);
        }
        let c = s[r];
        if c == '}' {
            if cur.len() > 0 {
                let ghost old_items = items@;
                items.push(string_of_vec(&cur));
                assert(strings_view(items@) =~= strings_view(old_items).push(cur@));
            }
            return Ok((items, r + 1));
        } else if c == ',' {
            if cur.len() > 0 {
                let ghost old_items = items@;
                items.push(string_of_vec(&cur));
                assert(strings_view(items@) =~= strings_view(old_items).push(cur@));
            }
            cur = Vec::new();
            assert(cur@ =~= Seq::<char>::empty());
        } else if char_is_alphanumeric(c) || c == '_' || c == '.' || c == '-' {
            cur.push(c);
        }
        pos = r + 1;
    }
}

/// Whether the characters `s[lo..hi]` spell `w`.
fn word_is(s: &Vec<char>, lo: usize, hi: usize, w: &str) -> (r: bool)
    requires
        lo <= hi <= s.len(),
    ensures
        r == (s@.subrange(lo as int, hi as int) == w@),
{
    let v = sub_vec(s, lo, hi);
    chars_eq_str(&v, w)
}

fn read_rule_body(s: &Vec<char>, p: usize) -> (r: Result<(Vec<String>, Vec<String>, usize), AcfError>)
    requires
        p <= s.len(),
    ensures
        match r {
            Ok((u, h, q)) => rule_body(s@, p as int, seq![], seq![]) == Ok::<(Seq<Seq<char>>, Seq<Seq<char>>, int), AcfFail>((strings_view(u@), strings_view(h@), q as int)),
            Err(e) => rule_body(s@, p as int, seq![], seq![]) == Err::<(Seq<Seq<char>>, Seq<Seq<char>>, int), AcfFail>(e.model()),
        },
{
    let mut uag: Vec<String> = Vec::new();
    let mut hag: Vec<String> = Vec::new();
    let mut pos: usize = p;
    assert(strings_view(uag@) =~= Seq::<Seq<char>>::empty());
    assert(strings_view(hag@) =~= Seq::<Seq<char>>::empty());
    loop
        invariant
            p <= pos <= s.len(),
            rule_body(s@, p as int, seq![], seq![]) == rule_body(s@, pos as int, strings_view(uag@), strings_view(hag@)),
        decreases s.len() - pos,
    {
        let r = skip_ws_comments(s, pos);
        proof {
            lemma_ws_end(s@, pos as int);
        }
        if r >= s.len() {
            return Ok((uag, hag, r));
        }
        if s[r] == '}' {
            return Ok((uag, hag, r + 1));
        }
        let we = read_word_end(s, r);
        proof {
            lemma_word_end(s@, r as int);
        }
        let is_uag = word_is(s, r, we, "UAG");
        let is_hag = word_is(s, r, we, "HAG");
        if is_uag || is_hag {
            proof {
                lemma_paren_name(s@, we as int);
            }
            match read_paren_name(s, we) {
                None => return Err(AcfError::ExpectedParen),
                Some((n, q)) => {
                    if is_uag {
                        let ghost old_u = uag@;
                        uag.push(n);
                        assert(strings_view(uag@) =~= strings_view(old_u).push(n@));
                    } else {
                        let ghost old_h = hag@;
                        hag.push(n);
                        assert(strings_view(hag@) =~= strings_view(old_h).push(n@));
                    }
                    pos = q;
                },
            }
        } else if we == r {
            return Err(AcfError::Stuck);
        } else {
            pos = we;
        }
    }
}

fn read_rule(s: &Vec<char>, p: usize) -> (r: Result<(AccessRule, usize), AcfError>)
    requires
        p <= s.len(),
    ensures
        match r {
            Ok((rule, q)) => rule_at(s@, p as int) matches Ok((m, q2)) && m == rule.model() && q2 == q,
            Err(e) => rule_at(s@, p as int) == Err::<(RuleModel, int), AcfFail>(e.model()),
        },
{
    let q = skip_ws_comments(s, p);
    if q >= s.len() || s[q] != '(' {
        return Err(AcfError::ExpectedRuleParen);
    }
    let a = skip_ws_comments(s, q + 1);
    let d = read_digits_end(s, a);
    proof {
        lemma_digits_end(s@, a as int);
    }
    let level: u8 = if d > a {
        match digits_value_upto(s, a, d, 255) {
            Some(v) => v as u8,
            None => 1,
        }
    } else {
        1
    };
    let b = skip_ws_comments(s, d);
    let b2 = if b < s.len() && s[b] == ',' {
        b + 1
    } else {
        b
    };
    let c = skip_ws_comments(s, b2);
    let ce = read_word_end(s, c);
    let word = sub_vec(s, c, ce);
    let lower = to_ascii_lower(&word);
    let write = chars_eq_str(&lower, "write");
    proof {
        let w = "WRITE"@;
        let lw = "write"@;
        reveal_strlit("WRITE");
        reveal_strlit("write");
        assert(seq_ascii_lower(w) =~= lw);
    }
    let g = skip_ws_comments(s, ce);
    let g2 = if g < s.len() && s[g] == ')' {
        g + 1
    } else {
        g
    };
    let h = skip_ws_comments(s, g2);
    if h < s.len() && s[h] == '{' {
        match read_rule_body(s, h + 1) {
            Err(e) => Err(e),
            Ok((uag, hag, e)) => Ok((AccessRule { level, write, uag, hag }, e)),
        }
    } else {
        let rule = AccessRule { level, write, uag: Vec::new(), hag: Vec::new() };
        assert(strings_view(rule.uag@) =~= Seq::<Seq<char>>::empty());
        assert(strings_view(rule.hag@) =~= Seq::<Seq<char>>::empty());
        Ok((rule, h))
    }
}

fn read_asg_body(s: &Vec<char>, p: usize) -> (r: Result<(AccessSecurityGroup, usize), AcfError>)
    requires
        p <= s.len(),
    ensures
        match r {
            Ok((g, q)) => asg_body(s@, p as int) matches Ok((m, q2)) && m == g.model() && q2 == q,
            Err(e) => asg_body(s@, p as int) == Err::<(Seq<RuleModel>, int), AcfFail>(e.model()),
        },
{
    let q = skip_ws_comments(s, p);
    if q >= s.len() || s[q] != '{' {
        return Err(AcfError::ExpectedAsgBrace);
    }
    let mut asg = AccessSecurityGroup { rules: Vec::new() };
    assert(asg.model() =~= Seq::<RuleModel>::empty());
    let mut pos: usize = q + 1;
    loop
        invariant
            q < pos <= s.len(),
            asg_body(s@, p as int) == asg_from(s@, pos as int, asg.model()),
        decreases s.len() - pos,
    {
        let r = skip_ws_comments(s, pos);
        proof {
            lemma_ws_end(s@, pos as int);
        }
        if r >= s.len() {
            return Err(AcfError::UnterminatedAsg);
        }
        if s[r] == '}' {
            return Ok((asg, r + 1));
        }
        let we = read_word_end(s, r);
        proof {
            lemma_word_end(s@, r as int);
        }
        if word_is(s, r, we, "RULE") {
            proof {
                lemma_rule_at(s@, we as int);
                reveal_strlit("RULE");
                assert(s@.subrange(r as int, we as int).len() == 4);
            }
            match read_rule(s, we) {
                Err(e) => return Err(e),
                Ok((rule, q2)) => {
                    let ghost old_m = asg.model();
                    let ghost rm = rule.model();
                    asg.rules.push(rule);
                    assert(asg.model() =~= old_m.push(rm));
                    pos = q2;
                },
            }
        } else if we == r {
            pos = r + 1;
        } else {
            pos = we;
        }
    }
}

/// Parse an ACF (Access Control File).
pub fn parse_acf(content: &str) -> (r: Result<AccessSecurityConfig, AcfError>)
    requires
        acf_terminates(content@),
    ensures
        match r {
            Ok(c) => c.wf() && acf_meaning(content@) == Ok::<AcfModel, AcfFail>(c.model()),
            Err(e) => acf_meaning(content@) == Err::<AcfModel, AcfFail>(e.model()),
        },
{
    scan_acf(content)
}

/// Whether the ACF scanner gets through `content`: false exactly for the
/// texts on which it makes no progress, which `parse_acf` is not given.
pub fn acf_scan_completes(content: &str) -> (r: bool)
    ensures
        r == acf_terminates(content@),
{
    match scan_acf(content) {
        Err(AcfError::Stuck) => false,
        _ => true,
    }
}

fn scan_acf(content: &str) -> (r: Result<AccessSecurityConfig, AcfError>)
    ensures
        match r {
            Ok(c) => c.wf() && acf_meaning(content@) == Ok::<AcfModel, AcfFail>(c.model()),
            Err(e) => acf_meaning(content@) == Err::<AcfModel, AcfFail>(e.model()),
        },
{
    let s = chars_of(content);
    let mut config = AccessSecurityConfig {
        uag: NameMap::new(),
        hag: NameMap::new(),
        asg: NameMap::new(),
        unknown_access: AccessLevel::Read,
    };
    assert(config.model().uag =~= Map::<Seq<char>, Seq<Seq<char>>>::empty());
    assert(config.model().hag =~= Map::<Seq<char>, Seq<Seq<char>>>::empty());
    assert(config.model().asg =~= Map::<Seq<char>, Seq<RuleModel>>::empty());
    let mut pos: usize = 0;
    while pos < s.len()
        invariant
            pos <= s.len(),
            config.wf(),
            s@ == content@,
            acf_meaning(s@) == acf_from(s@, pos as int, config.model()),
        decreases s.len() - pos,
    {
        let q = skip_ws_comments(&s, pos);
        let e = read_word_end(&s, q);
        proof {
            lemma_ws_end(s@, pos as int);
            lemma_word_end(s@, q as int);
            reveal_strlit("UAG");
            reveal_strlit("HAG");
            reveal_strlit("ASG");
        }
        let is_uag = word_is(&s, q, e, "UAG");
        let is_hag = word_is(&s, q, e, "HAG");
        let is_asg = word_is(&s, q, e, "ASG");
        let ghost m = config.model();
        if is_uag || is_hag {
            proof {
                lemma_paren_name(s@, e as int);
            }
            let (name, p2) = match read_paren_name(&s, e) {
                None => return Err(AcfError::ExpectedParen),
                Some(x) => x,
            };
            proof {
                lemma_brace_list(s@, p2 as int);
            }
            let (members, p3) = match read_brace_list(&s, p2) {
                Err(f) => return Err(f),
                Ok(x) => x,
            };
            let ghost nv = name@;
            let ghost mv = strings_view(members@);
            if is_uag {
                config.uag.insert(name, members);
                assert(config.model().uag =~= m.uag.insert(nv, mv));
                assert(config.model() == AcfModel { uag: m.uag.insert(nv, mv), ..m });
            } else {
                config.hag.insert(name, members);
                assert(config.model().hag =~= m.hag.insert(nv, mv));
                assert(config.model() == AcfModel { hag: m.hag.insert(nv, mv), ..m });
            }
            pos = p3;
        } else if is_asg {
            proof {
                lemma_paren_name(s@, e as int);
            }
            let (name, p2) = match read_paren_name(&s, e) {
                None => return Err(AcfError::ExpectedParen),
                Some(x) => x,
            };
            proof {
                lemma_asg_body(s@, p2 as int);
            }
            let (group, p3) = match read_asg_body(&s, p2) {
                Err(f) => return Err(f),
                Ok(x) => x,
            };
            let ghost nv = name@;
            let ghost gv = group.model();
            config.asg.insert(name, group);
            assert(config.model().asg =~= m.asg.insert(nv, gv));
            assert(config.model() == AcfModel { asg: m.asg.insert(nv, gv), ..m });
            pos = p3;
        } else if e == q {
            return Ok(config);
        } else {
            return Err(AcfError::UnexpectedKeyword(sub_string(&s, q, e)));
        }
    }
    Ok(config)
}

/// The strength of an access level: none, read, read and write.
pub open spec fn access_rank(a: AccessLevel) -> int {
    match a {
        AccessLevel::NoAccess => 0,
        AccessLevel::Read => 1,
        AccessLevel::ReadWrite => 2,
    }
}

/// The position in `b + a` of position `i` of `a + b`.
spec fn swapped_index(i: int, a_len: int, b_len: int) -> int {
    if i < a_len { b_len + i } else { i - a_len }
}

/// Every rule of one list that applies also applies in the other order.
proof fn rules_swap_half(m: AcfModel, a: Seq<RuleModel>, b: Seq<RuleModel>, host: Seq<char>, user: Seq<char>)
    ensures
        (exists|i: int| 0 <= i < (a + b).len() && (a + b)[i].write && #[trigger] rule_applies(m, (a + b)[i], host, user))
            ==> (exists|j: int| 0 <= j < (b + a).len() && (b + a)[j].write && #[trigger] rule_applies(m, (b + a)[j], host, user)),
        (exists|i: int| 0 <= i < (a + b).len() && #[trigger] rule_applies(m, (a + b)[i], host, user))
            ==> (exists|j: int| 0 <= j < (b + a).len() && #[trigger] rule_applies(m, (b + a)[j], host, user)),
{
    let ab = a + b;
    let ba = b + a;
    if exists|i: int| 0 <= i < ab.len() && ab[i].write && #[trigger] rule_applies(m, ab[i], host, user) {
        let i = choose|i: int| 0 <= i < ab.len() && ab[i].write && #[trigger] rule_applies(m, ab[i], host, user);
        let j = swapped_index(i, a.len() as int, b.len() as int);
        assert(ba[j] == ab[i]);
        assert(rule_applies(m, ba[j], host, user));
    }
    if exists|i: int| 0 <= i < ab.len() && #[trigger] rule_applies(m, ab[i], host, user) {
        let i = choose|i: int| 0 <= i < ab.len() && #[trigger] rule_applies(m, ab[i], host, user);
        let j = swapped_index(i, a.len() as int, b.len() as int);
        assert(ba[j] == ab[i]);
        assert(rule_applies(m, ba[j], host, user));
    }
}

/// The order of the rules of an ASG does not matter.
pub proof fn rule_order_irrelevant(m: AcfModel, a: Seq<RuleModel>, b: Seq<RuleModel>, host: Seq<char>, user: Seq<char>)
    ensures
        rules_access(m, a + b, host, user) == rules_access(m, b + a, host, user),
{
    rules_swap_half(m, a, b, host, user);
    rules_swap_half(m, b, a, host, user);
}

/// Adding a rule to an ASG that has rules never lowers anyone's access.
pub proof fn more_rules_never_less(m: AcfModel, rules: Seq<RuleModel>, r: RuleModel, host: Seq<char>, user: Seq<char>)
    requires
        rules.len() > 0,
    ensures
        access_rank(rules_access(m, rules.push(r), host, user)) >= access_rank(rules_access(m, rules, host, user)),
{
    let more = rules.push(r);
    if exists|i: int| 0 <= i < rules.len() && rules[i].write && #[trigger] rule_applies(m, rules[i], host, user) {
        let i = choose|i: int| 0 <= i < rules.len() && rules[i].write && #[trigger] rule_applies(m, rules[i], host, user);
        assert(more[i] == rules[i]);
        assert(more[i].write && rule_applies(m, more[i], host, user));
    }
    if exists|i: int| 0 <= i < rules.len() && #[trigger] rule_applies(m, rules[i], host, user) {
        let i = choose|i: int| 0 <= i < rules.len() && #[trigger] rule_applies(m, rules[i], host, user);
        assert(more[i] == rules[i]);
        assert(rule_applies(m, more[i], host, user));
    }
}


/// Membership in any one of the groups a rule names admits: whichever
/// position the group has in the list.
pub proof fn member_of_any_named_group(
    groups: Map<Seq<char>, Seq<Seq<char>>>,
    names: Seq<Seq<char>>,
    who: Seq<char>,
    i: int,
)
    requires
        0 <= i < names.len(),
        groups.contains_key(names[i]),
        groups[names[i]].contains(who),
    ensures
        in_some_group(groups, names, who),
{
}

/// A list that names groups admits no one who is a member of none of
/// them (a name that is no group admits no one); a list that names no
/// group admits everyone.
pub proof fn member_of_no_named_group(
    groups: Map<Seq<char>, Seq<Seq<char>>>,
    names: Seq<Seq<char>>,
    who: Seq<char>,
)
    ensures
        names.len() == 0 ==> in_some_group(groups, names, who),
        names.len() > 0 && (forall|i: int| 0 <= i < names.len() ==> !(#[trigger] groups.contains_key(names[i]) && groups[names[i]].contains(who)))
            ==> !in_some_group(groups, names, who),
{
}

/// A client whose user is in any one of the UAGs of a `WRITE` rule of the
/// ASG, and whose host is in any one of its HAGs (or the rule names none),
/// gets read and write access.
pub proof fn write_rule_member_gets_write(m: AcfModel, asg: Seq<char>, host: Seq<char>, user: Seq<char>, k: int, i: int, j: int)
    requires
        m.asg.contains_key(asg),
        host.len() > 0,
        user.len() > 0,
        0 <= k < m.asg[asg].len(),
        m.asg[asg][k].write,
        0 <= i < m.asg[asg][k].uag.len(),
        m.uag.contains_key(m.asg[asg][k].uag[i]),
        m.uag[m.asg[asg][k].uag[i]].contains(user),
        m.asg[asg][k].hag.len() == 0 || (0 <= j < m.asg[asg][k].hag.len()
            && m.hag.contains_key(m.asg[asg][k].hag[j]) && m.hag[m.asg[asg][k].hag[j]].contains(host)),
    ensures
        access_of(m, asg, host, user) == AccessLevel::ReadWrite,
{
    let r = m.asg[asg][k];
    member_of_any_named_group(m.uag, r.uag, user, i);
    if r.hag.len() > 0 {
        member_of_any_named_group(m.hag, r.hag, host, j);
    }
    assert(rule_applies(m, m.asg[asg][k], host, user));
}

/// A member of a `UAG`/`HAG` brace list is kept character for character:
/// `{ m }`, where `m` is made of letters, digits, `_`, `.` and `-`, reads
/// as the one member `m`, wherever the list stands in the text. (Of the
/// characters only what the text states of `char::is_alphanumeric` is
/// known, so the characters are also taken to be no whitespace, `#`, `,`
/// or `}`, which no letter or digit is.)
pub proof fn brace_member_kept(s: Seq<char>, q: int, m: Seq<char>)
    requires
        0 <= q,
        q + m.len() + 4 <= s.len(),
        m.len() > 0,
        s[q] == '{',
        s[q + 1] == ' ',
        s.subrange(q + 2, q + 2 + m.len()) == m,
        s[q + 2 + m.len()] == ' ',
        s[q + 3 + m.len()] == '}',
        forall|k: int| 0 <= k < m.len() ==> (unicode_alphanumeric(#[trigger] m[k]) || m[k] == '_' || m[k] == '.' || m[k] == '-')
            && !is_white(m[k]) && m[k] != '#' && m[k] != ',' && m[k] != '}',
    ensures
        brace_list(s, q) == Ok::<(Seq<Seq<char>>, int), AcfFail>((seq![m], q + m.len() + 4)),
{
    let a = q + 2;
    let b = q + 2 + m.len();
    assert(ws_end(s, q) == q);
    assert(s[a] == m[0]);
    assert(ws_end(s, a) == a);
    assert(ws_end(s, q + 1) == ws_end(s, a));
    assert forall|k: int| a <= k < b implies (unicode_alphanumeric(#[trigger] s[k]) || s[k] == '_' || s[k] == '.' || s[k] == '-')
        && !is_white(s[k]) && s[k] != '#' && s[k] != ',' && s[k] != '}' by {
        assert(s[k] == m[k - a]);
    }
    lemma_members_read(s, a, b, seq![], seq![]);
    assert(seq![] + s.subrange(a, b) =~= m);
    assert(ws_end(s, b + 1) == b + 1);
    assert(ws_end(s, b) == ws_end(s, b + 1));
    assert(push_nonempty(seq![], m) =~= seq![m]);
}

/// Member names of letters, digits, `_`, `.` and `-`: each character is
/// also no whitespace, `#`, `,` or `}` (see `brace_member_kept`).
pub open spec fn plain_member(m: Seq<char>) -> bool {
    m.len() > 0 && forall|k: int| 0 <= k < m.len() ==> (unicode_alphanumeric(#[trigger] m[k]) || m[k] == '_' || m[k] == '.' || m[k] == '-')
        && !is_white(m[k]) && m[k] != '#' && m[k] != ',' && m[k] != '}'
}

/// `{ a, b }` reads as the two members `a` and `b`, in order, each kept
/// character for character.
pub proof fn brace_two_members_kept(a: Seq<char>, b: Seq<char>)
    requires
        plain_member(a),
        plain_member(b),
    ensures
        brace_list(seq!['{', ' '] + a + seq![',', ' '] + b + seq![' ', '}'], 0)
            == Ok::<(Seq<Seq<char>>, int), AcfFail>((seq![a, b], (a.len() + b.len() + 6) as int)),
{
    let s = seq!['{', ' '] + a + seq![',', ' '] + b + seq![' ', '}'];
    let x = 2int;
    let y: int = 2 + a.len() as int;
    let z: int = y + 2;
    let w: int = z + b.len();
    assert forall|k: int| x <= k < y implies (unicode_alphanumeric(#[trigger] s[k]) || s[k] == '_' || s[k] == '.' || s[k] == '-')
        && !is_white(s[k]) && s[k] != '#' && s[k] != ',' && s[k] != '}' by {
        assert(s[k] == a[k - x]);
    }
    assert forall|k: int| z <= k < w implies (unicode_alphanumeric(#[trigger] s[k]) || s[k] == '_' || s[k] == '.' || s[k] == '-')
        && !is_white(s[k]) && s[k] != '#' && s[k] != ',' && s[k] != '}' by {
        assert(s[k] == b[k - z]);
    }
    assert(ws_end(s, 0) == 0);
    assert(s[x] == a[0]);
    assert(ws_end(s, x) == x);
    assert(ws_end(s, 1) == ws_end(s, x));
    lemma_members_read(s, x, y, seq![], seq![]);
    assert(seq![] + s.subrange(x, y) =~= a);
    assert(ws_end(s, y) == y);
    assert(s[z] == b[0]);
    assert(ws_end(s, z) == z);
    assert(ws_end(s, y + 1) == ws_end(s, z));
    assert(push_nonempty(seq![], a) =~= seq![a]);
    lemma_members_read(s, z, w, seq![a], seq![]);
    assert(seq![] + s.subrange(z, w) =~= b);
    assert(ws_end(s, w + 1) == w + 1);
    assert(ws_end(s, w) == ws_end(s, w + 1));
    assert(push_nonempty(seq![a], b) =~= seq![a, b]);
    assert(s[y] == ',');
    assert(s[w] == ' ' && s[w + 1] == '}');
    assert(list_from(s, w, seq![a], b) == Ok::<(Seq<Seq<char>>, int), AcfFail>((seq![a, b], w + 2)));
    assert(list_from(s, y, seq![], a) == list_from(s, y + 1, seq![a], seq![]));
    assert(list_from(s, 1, seq![], seq![]) == list_from(s, x, seq![], seq![]));
}

proof fn lemma_members_read(s: Seq<char>, p: int, b: int, items: Seq<Seq<char>>, cur: Seq<char>)
    requires
        0 <= p <= b < s.len(),
        forall|k: int| p <= k < b ==> (unicode_alphanumeric(#[trigger] s[k]) || s[k] == '_' || s[k] == '.' || s[k] == '-')
            && !is_white(s[k]) && s[k] != '#' && s[k] != ',' && s[k] != '}',
    ensures
        list_from(s, p, items, cur) == list_from(s, b, items, cur + s.subrange(p, b)),
    decreases b - p,
{
    if p == b {
        assert(cur + s.subrange(p, b) =~= cur);
    } else {
        assert(ws_end(s, p) == p);
        assert(is_member_char(s[p]));
        lemma_members_read(s, p + 1, b, items, cur.push(s[p]));
        assert(cur.push(s[p]) + s.subrange(p + 1, b) =~= cur + s.subrange(p, b));
    }
}

} // verus!
