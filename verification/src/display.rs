//! Terminal rendering of generated passwords.
//!
//! Builds the exact lines the front end prints: the password itself, a
//! strength bar with the entropy estimate, and a header. Colouring is
//! done by the `owo-colors` crate behind thin wrappers whose contracts
//! state the exact escape sequences it emits.

use vstd::prelude::*;
use owo_colors::OwoColorize;
use crate::entropy::EntropyInfo;
use crate::entropy::StrengthLevel;
use crate::entropy::spec_strength;
use crate::text::chars_to_string;
use crate::text::decimal_chars;
use crate::text::spec_decimal;
use crate::GeneratedPassword;

verus! {

/// A foreground colour span: the opening code, the text, and the reset.
pub open spec fn fg_wrap(code: Seq<char>, s: Seq<char>) -> Seq<char> {
    code + s + "\u{1b}[39m"@
}

/// A bold span: the opening code, the text, and the style reset.
pub open spec fn bold_wrap(s: Seq<char>) -> Seq<char> {
    "\u{1b}[1m"@ + s + "\u{1b}[0m"@
}

/// Relies on `OwoColorize::bold` for `str`: its display form is the text
/// between the bold escape and the style reset.
#[verifier::external_body]
fn paint_bold(s: &str) -> (r: String)
    ensures
        r@ == bold_wrap(s@),
{
    format!("{}", s.bold())
}

/// Relies on `OwoColorize::red` for `str`: the red foreground span.
#[verifier::external_body]
fn paint_red(s: &str) -> (r: String)
    ensures
        r@ == fg_wrap("\u{1b}[31m"@, s@),
{
    format!("{}", s.red())
}

/// Relies on `OwoColorize::green` for `str`: the green foreground span.
#[verifier::external_body]
fn paint_green(s: &str) -> (r: String)
    ensures
        r@ == fg_wrap("\u{1b}[32m"@, s@),
{
    format!("{}", s.green())
}

/// Relies on `OwoColorize::yellow` for `str`: the yellow foreground span.
#[verifier::external_body]
fn paint_yellow(s: &str) -> (r: String)
    ensures
        r@ == fg_wrap("\u{1b}[33m"@, s@),
{
    format!("{}", s.yellow())
}

/// Relies on `OwoColorize::blue` for `str`: the blue foreground span.
#[verifier::external_body]
fn paint_blue(s: &str) -> (r: String)
    ensures
        r@ == fg_wrap("\u{1b}[34m"@, s@),
{
    format!("{}", s.blue())
}

/// Relies on `OwoColorize::cyan` for `str`: the cyan foreground span.
#[verifier::external_body]
fn paint_cyan(s: &str) -> (r: String)
    ensures
        r@ == fg_wrap("\u{1b}[36m"@, s@),
{
    format!("{}", s.cyan())
}

/// Relies on `OwoColorize::bright_green` for `str`: the bright green
/// foreground span.
#[verifier::external_body]
fn paint_bright_green(s: &str) -> (r: String)
    ensures
        r@ == fg_wrap("\u{1b}[92m"@, s@),
{
    format!("{}", s.bright_green())
}

/// `n` copies of one character.
pub open spec fn repeat_char(c: char, n: nat) -> Seq<char> {
    Seq::new(n, |i: int| c)
}

fn push_repeated(v: &mut Vec<char>, c: char, n: usize)
    ensures
        final(v)@ == old(v)@ + repeat_char(c, n as nat),
{
    let ghost v0 = v@;
    let mut i: usize = 0;
    while i < n
        invariant
            i <= n,
            v@ == v0 + repeat_char(c, i as nat),
        decreases n - i,
    {
        v.push(c);
        proof {
            assert(v@ =~= v0 + repeat_char(c, (i + 1) as nat));
        }
        i = i + 1;
    }
}

/// The bar text itself: filled blocks, then empty blocks.
pub open spec fn bar_chars(filled: nat, empty: nat) -> Seq<char> {
    repeat_char('█', filled) + repeat_char('░', empty)
}

/// The bar as coloured for a strength level.
pub open spec fn styled_bar(strength: StrengthLevel, bar: Seq<char>) -> Seq<char> {
    match strength {
        StrengthLevel::VeryWeak => fg_wrap("\u{1b}[31m"@, bar),
        StrengthLevel::Weak => fg_wrap("\u{1b}[33m"@, bar),
        StrengthLevel::Moderate => fg_wrap("\u{1b}[34m"@, bar),
        StrengthLevel::Strong => fg_wrap("\u{1b}[32m"@, bar),
        StrengthLevel::VeryStrong => bold_wrap(fg_wrap("\u{1b}[92m"@, bar)),
    }
}

/// The strength label as coloured for its level.
pub open spec fn styled_label(strength: StrengthLevel) -> Seq<char> {
    match strength {
        StrengthLevel::VeryWeak => fg_wrap("\u{1b}[31m"@, "Very Weak"@),
        StrengthLevel::Weak => fg_wrap("\u{1b}[33m"@, "Weak"@),
        StrengthLevel::Moderate => fg_wrap("\u{1b}[34m"@, "Moderate"@),
        StrengthLevel::Strong => fg_wrap("\u{1b}[32m"@, "Strong"@),
        StrengthLevel::VeryStrong => bold_wrap(fg_wrap("\u{1b}[92m"@, "Very Strong"@)),
    }
}

/// The whole progress bar: coloured blocks, or bracketed plain blocks.
pub open spec fn spec_progress_bar(
    use_colors: bool,
    percentage: u8,
    width: nat,
    strength: StrengthLevel,
) -> Seq<char> {
    let filled = (width * percentage / 100) as nat;
    let bar = bar_chars(filled, (width - filled) as nat);
    if use_colors {
        styled_bar(strength, bar)
    } else {
        "["@ + bar + "]"@
    }
}

/// The entropy estimate rendered as bits with one decimal digit,
/// rounding half up.
pub open spec fn spec_bits_str(millibits: u64) -> Seq<char> {
    let deci = (millibits + 50) / 100;
    spec_decimal((deci / 10) as nat) + seq!['.', ((48 + deci % 10) as u32) as char]
}

/// The bits figure with one decimal digit.
fn bits_str(millibits: u64) -> (r: String)
    ensures
        r@ == spec_bits_str(millibits),
{
    let deci = millibits / 100 + if millibits % 100 >= 50 {
        1
    } else {
        0
    };
    proof {
        assert(deci == (millibits + 50) / 100) by (nonlinear_arith)
            requires
                deci == millibits / 100 + (if millibits % 100 >= 50 {
                    1int
                } else {
                    0
                }),
        ;
    }
    let mut chars = decimal_chars(deci / 10);
    chars.push('.');
    let frac: u8 = (deci % 10) as u8;
    chars.push((48 + frac) as char);
    let r = chars_to_string(&chars);
    proof {
        assert(r@ =~= spec_bits_str(millibits));
    }
    r
}

/// The terminal presentation settings: colours (which imply emoji) and a
/// quiet mode that prints passwords alone.
pub struct PasswordDisplay {
    pub use_colors: bool,
    pub use_emoji: bool,
    pub quiet: bool,
}

/// The password line of the report.
pub open spec fn spec_password_line(use_colors: bool, value: Seq<char>) -> Seq<char> {
    if use_colors {
        "  "@ + bold_wrap("Password:"@) + " "@ + bold_wrap(fg_wrap("\u{1b}[32m"@, value))
    } else {
        "  Password: "@ + value
    }
}

/// The strength line of the report: the bar, the bits figure, and the
/// label, with an emoji when emoji are on.
pub open spec fn spec_strength_line(d: PasswordDisplay, entropy: EntropyInfo) -> Seq<char> {
    let strength = spec_strength(entropy.millibits);
    let pct: u8 = if entropy.millibits / 1280 > 100 {
        100u8
    } else {
        (entropy.millibits / 1280) as u8
    };
    let bar = spec_progress_bar(d.use_colors, pct, 20, strength);
    if d.use_colors {
        let emoji_part = if d.use_emoji {
            " "@ + spec_emoji(strength)
        } else {
            Seq::<char>::empty()
        };
        "  "@ + bold_wrap("Strength:"@) + " "@ + bar + " "@ + spec_bits_str(entropy.millibits)
            + " bits "@ + styled_label(strength) + emoji_part
    } else {
        "  Strength: "@ + bar + " "@ + spec_bits_str(entropy.millibits) + " bits ("@ + spec_label(
            strength,
        ) + ")"@
    }
}

/// The plain text of a strength label.
pub open spec fn spec_label(strength: StrengthLevel) -> Seq<char> {
    match strength {
        StrengthLevel::VeryWeak => "Very Weak"@,
        StrengthLevel::Weak => "Weak"@,
        StrengthLevel::Moderate => "Moderate"@,
        StrengthLevel::Strong => "Strong"@,
        StrengthLevel::VeryStrong => "Very Strong"@,
    }
}

/// The emoji of a strength label.
pub open spec fn spec_emoji(strength: StrengthLevel) -> Seq<char> {
    match strength {
        StrengthLevel::VeryWeak => "💀"@,
        StrengthLevel::Weak => "😟"@,
        StrengthLevel::Moderate => "😐"@,
        StrengthLevel::Strong => "😊"@,
        StrengthLevel::VeryStrong => "🔒"@,
    }
}

/// The header line above a batch of passwords.
pub open spec fn spec_header_line(d: PasswordDisplay, description: Seq<char>, count: nat) -> Seq<
    char,
> {
    let text = "Generating "@ + spec_decimal(count) + " "@ + description + " password(s):"@;
    if d.use_colors {
        let emoji_part = if d.use_emoji {
            "🔑 "@
        } else {
            Seq::<char>::empty()
        };
        emoji_part + bold_wrap(fg_wrap("\u{1b}[36m"@, text))
    } else {
        text
    }
}

impl PasswordDisplay {
    pub fn new(use_colors: bool, quiet: bool) -> (r: Self)
        ensures
            r.use_colors == use_colors,
            r.use_emoji == use_colors,
            r.quiet == quiet,
    {
        PasswordDisplay { use_colors, use_emoji: use_colors, quiet }
    }

    /// The progress bar for a percentage, at a width, coloured by
    /// strength when colours are on.
    pub fn render_progress_bar(&self, percentage: u8, width: usize, strength: StrengthLevel) -> (r:
        String)
        requires
            percentage <= 100,
            width <= 10000,
        ensures
            r@ == spec_progress_bar(self.use_colors, percentage, width as nat, strength),
    {
        proof {
            assert(width * (percentage as int) <= 1000000) by (nonlinear_arith)
                requires
                    width <= 10000,
                    percentage <= 100,
            ;
            assert(width * (percentage as int) / 100 <= width) by (nonlinear_arith)
                requires
                    percentage <= 100,
                    width >= 0,
            ;
        }
        let filled = width * (percentage as usize) / 100;
        let empty = width - filled;
        let mut blocks: Vec<char> = Vec::new();
        push_repeated(&mut blocks, '█', filled);
        push_repeated(&mut blocks, '░', empty);
        let bar = chars_to_string(&blocks);
        proof {
            assert(bar@ =~= bar_chars(filled as nat, empty as nat));
        }
        if self.use_colors {
            let painted = match strength {
                StrengthLevel::VeryWeak => paint_red(bar.as_str()),
                StrengthLevel::Weak => paint_yellow(bar.as_str()),
                StrengthLevel::Moderate => paint_blue(bar.as_str()),
                StrengthLevel::Strong => paint_green(bar.as_str()),
                StrengthLevel::VeryStrong => {
                    let inner = paint_bright_green(bar.as_str());
                    paint_bold(inner.as_str())
                },
            };
            painted
        } else {
            let mut r = String::new();
            r.append("[");
            r.append(bar.as_str());
            r.append("]");
            proof {
                assert(r@ =~= "["@ + bar@ + "]"@);
            }
            r
        }
    }

    /// The strength label, coloured by its level.
    pub fn colored_strength_label(&self, strength: StrengthLevel) -> (r: String)
        ensures
            r@ == styled_label(strength),
    {
        let label = strength.label();
        match strength {
            StrengthLevel::VeryWeak => paint_red(label),
            StrengthLevel::Weak => paint_yellow(label),
            StrengthLevel::Moderate => paint_blue(label),
            StrengthLevel::Strong => paint_green(label),
            StrengthLevel::VeryStrong => {
                let inner = paint_bright_green(label);
                paint_bold(inner.as_str())
            },
        }
    }

    /// The lines shown for one generated password: just the value in
    /// quiet mode, otherwise the value, the strength report, and a blank
    /// line.
    pub fn show_lines(&self, password: &GeneratedPassword) -> (r: Vec<String>)
        ensures
            self.quiet ==> r@.len() == 1 && r@[0]@ == password.value@,
            !self.quiet ==> {
                &&& r@.len() == 3
                &&& r@[0]@ == spec_password_line(self.use_colors, password.value@)
                &&& r@[1]@ == spec_strength_line(*self, password.entropy)
                &&& r@[2]@ == Seq::<char>::empty()
            },
    {
        let mut r: Vec<String> = Vec::new();
        if self.quiet {
            r.push(password.value.clone());
            return r;
        }
        let strength = password.entropy.strength();

        // Password line.
        let mut line0 = String::new();
        if self.use_colors {
            let head = paint_bold("Password:");
            let body_green = paint_green(password.value.as_str());
            let body = paint_bold(body_green.as_str());
            line0.append("  ");
            line0.append(head.as_str());
            line0.append(" ");
            line0.append(body.as_str());
            proof {
                assert(line0@ =~= spec_password_line(self.use_colors, password.value@));
            }
        } else {
            line0.append("  Password: ");
            line0.append(password.value.as_str());
            proof {
                assert(line0@ =~= spec_password_line(self.use_colors, password.value@));
            }
        }
        r.push(line0);

        // Strength line.
        let pct = password.entropy.percentage();
        let bar = self.render_progress_bar(pct, 20, strength);
        let bits = bits_str(password.entropy.millibits);
        let mut line1 = String::new();
        if self.use_colors {
            let head = paint_bold("Strength:");
            let label = self.colored_strength_label(strength);
            line1.append("  ");
            line1.append(head.as_str());
            line1.append(" ");
            line1.append(bar.as_str());
            line1.append(" ");
            line1.append(bits.as_str());
            line1.append(" bits ");
            line1.append(label.as_str());
            if self.use_emoji {
                line1.append(" ");
                line1.append(strength.emoji());
            }
            proof {
                assert(line1@ =~= spec_strength_line(*self, password.entropy));
            }
        } else {
            line1.append("  Strength: ");
            line1.append(bar.as_str());
            line1.append(" ");
            line1.append(bits.as_str());
            line1.append(" bits (");
            line1.append(strength.label());
            line1.append(")");
            proof {
                assert(line1@ =~= spec_strength_line(*self, password.entropy));
            }
        }
        r.push(line1);
        r.push(String::new());
        r
    }

    /// The lines of the header above a batch: a blank line, the header
    /// itself, and another blank line; nothing in quiet mode.
    pub fn header_lines(&self, description: &str, count: usize) -> (r: Vec<String>)
        ensures
            self.quiet ==> r@.len() == 0,
            !self.quiet ==> {
                &&& r@.len() == 3
                &&& r@[0]@ == Seq::<char>::empty()
                &&& r@[1]@ == spec_header_line(*self, description@, count as nat)
                &&& r@[2]@ == Seq::<char>::empty()
            },
    {
        let mut r: Vec<String> = Vec::new();
        if self.quiet {
            return r;
        }
        let count_str = {
            let digits = decimal_chars(count as u64);
            chars_to_string(&digits)
        };
        let mut text = String::new();
        text.append("Generating ");
        text.append(count_str.as_str());
        text.append(" ");
        text.append(description);
        text.append(" password(s):");
        proof {
            assert(text@ =~= "Generating "@ + spec_decimal(count as nat) + " "@ + description@
                + " password(s):"@);
        }
        let line: String;
        if self.use_colors {
            let tinted = paint_cyan(text.as_str());
            let styled = paint_bold(tinted.as_str());
            let mut l = String::new();
            if self.use_emoji {
                l.append("🔑 ");
            }
            l.append(styled.as_str());
            proof {
                assert(l@ =~= spec_header_line(*self, description@, count as nat));
            }
            line = l;
        } else {
            proof {
                assert(text@ =~= spec_header_line(*self, description@, count as nat));
            }
            line = text;
        }
        r.push(String::new());
        r.push(line);
        r.push(String::new());
        r
    }
}

} // verus!
