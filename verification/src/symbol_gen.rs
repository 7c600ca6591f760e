//! Text of generated symbol library files.

use vstd::prelude::*;
use vstd::string::StringExecFns;

verus! {

/// Text of a three-pin semiconductor symbol (body box, input, common and output pins).
pub open spec fn semiconductor_3pin_text(name: Seq<char>, desc: Seq<char>, ref_pre: Seq<char>) -> Seq<char> {
    "(tokito_symbol_lib\n\t(version 20251024)\n\t(generator \"tokito_symbol_gen\")\n\t(generator_version \"1.0\")\n\t(symbol \""@ + name + "\"\n\t\t(property \"Reference\" \""@ + ref_pre + "\"\n\t\t\t(at 0 0 0)\n\t\t\t(effects (font (size 1.27 1.27))))\n\t\t(property \"Value\" \""@ + name + "\"\n\t\t\t(at 0 0 0)\n\t\t\t(effects (font (size 1.27 1.27))))\n\t\t(property \"Description\" \""@ + desc + "\"\n\t\t\t(at 0 0 0)\n\t\t\t(effects (font (size 1.27 1.27))))\n\t\t(symbol \""@ + name + "_0_1\"\n\t\t\t(rectangle\n\t\t\t\t(start -2.0 2.0)\n\t\t\t\t(end 2.0 -2.0)\n\t\t\t\t(stroke (width 0.254) (type default))\n\t\t\t\t(fill (type none))))\n\t\t(symbol \""@ + name + "_1_1\"\n\t\t\t(pin input line (at -5.08 0 0) (length 2.54)\n\t\t\t\t(number \"1\" (effects (font (size 1.27 1.27)))))\n\t\t\t(pin passive line (at 0 -5.08 90) (length 2.54)\n\t\t\t\t(number \"2\" (effects (font (size 1.27 1.27)))))\n\t\t\t(pin output line (at 5.08 0 180) (length 2.54)\n\t\t\t\t(number \"3\" (effects (font (size 1.27 1.27))))))\n\t)\n)\n"@
}

/// Library text of a three-pin semiconductor symbol (body box, input, common and output pins).
pub fn semiconductor_3pin(name: &str, desc: &str, ref_pre: &str) -> (r: String)
    ensures
        r@ == semiconductor_3pin_text(name@, desc@, ref_pre@),
{
    let mut out = String::new();
    out.append("(tokito_symbol_lib\n\t(version 20251024)\n\t(generator \"tokito_symbol_gen\")\n\t(generator_version \"1.0\")\n\t(symbol \"");
    out.append(name);
    out.append("\"\n\t\t(property \"Reference\" \"");
    out.append(ref_pre);
    out.append("\"\n\t\t\t(at 0 0 0)\n\t\t\t(effects (font (size 1.27 1.27))))\n\t\t(property \"Value\" \"");
    out.append(name);
    out.append("\"\n\t\t\t(at 0 0 0)\n\t\t\t(effects (font (size 1.27 1.27))))\n\t\t(property \"Description\" \"");
    out.append(desc);
    out.append("\"\n\t\t\t(at 0 0 0)\n\t\t\t(effects (font (size 1.27 1.27))))\n\t\t(symbol \"");
    out.append(name);
    out.append("_0_1\"\n\t\t\t(rectangle\n\t\t\t\t(start -2.0 2.0)\n\t\t\t\t(end 2.0 -2.0)\n\t\t\t\t(stroke (width 0.254) (type default))\n\t\t\t\t(fill (type none))))\n\t\t(symbol \"");
    out.append(name);
    out.append("_1_1\"\n\t\t\t(pin input line (at -5.08 0 0) (length 2.54)\n\t\t\t\t(number \"1\" (effects (font (size 1.27 1.27)))))\n\t\t\t(pin passive line (at 0 -5.08 90) (length 2.54)\n\t\t\t\t(number \"2\" (effects (font (size 1.27 1.27)))))\n\t\t\t(pin output line (at 5.08 0 180) (length 2.54)\n\t\t\t\t(number \"3\" (effects (font (size 1.27 1.27))))))\n\t)\n)\n");
    assert(out@ =~= semiconductor_3pin_text(name@, desc@, ref_pre@));
    out
}

/// Text of a three-pin regulator symbol (input, supply and output pins, with a footprint field).
pub open spec fn regulator_3pin_text(name: Seq<char>, desc: Seq<char>, fp: Seq<char>) -> Seq<char> {
    "(tokito_symbol_lib\n\t(version 20251024)\n\t(generator \"tokito_symbol_gen\")\n\t(generator_version \"1.0\")\n\t(symbol \""@ + name + "\"\n\t\t(property \"Reference\" \"U\"\n\t\t\t(at 0 0 0)\n\t\t\t(effects (font (size 1.27 1.27))))\n\t\t(property \"Value\" \""@ + name + "\"\n\t\t\t(at 0 0 0)\n\t\t\t(effects (font (size 1.27 1.27))))\n\t\t(property \"Description\" \""@ + desc + "\"\n\t\t\t(at 0 0 0)\n\t\t\t(effects (font (size 1.27 1.27))))\n\t\t(property \"Footprint\" \""@ + fp + "\"\n\t\t\t(at 0 0 0)\n\t\t\t(effects (font (size 1.27 1.27))))\n\t\t(symbol \""@ + name + "_0_1\"\n\t\t\t(rectangle\n\t\t\t\t(start -2.54 2.54)\n\t\t\t\t(end 2.54 -2.54)\n\t\t\t\t(stroke (width 0.254) (type default))\n\t\t\t\t(fill (type background))))\n\t\t(symbol \""@ + name + "_1_1\"\n\t\t\t(pin input line (at -5.08 0 0) (length 2.54)\n\t\t\t\t(number \"1\" (effects (font (size 1.27 1.27)))))\n\t\t\t(pin power_in line (at 0 5.08 270) (length 2.54)\n\t\t\t\t(number \"2\" (effects (font (size 1.27 1.27)))))\n\t\t\t(pin output line (at 5.08 0 180) (length 2.54)\n\t\t\t\t(number \"3\" (effects (font (size 1.27 1.27))))))\n\t)\n)\n"@
}

/// Library text of a three-pin regulator symbol (input, supply and output pins, with a footprint field).
pub fn regulator_3pin(name: &str, desc: &str, fp: &str) -> (r: String)
    ensures
        r@ == regulator_3pin_text(name@, desc@, fp@),
{
    let mut out = String::new();
    out.append("(tokito_symbol_lib\n\t(version 20251024)\n\t(generator \"tokito_symbol_gen\")\n\t(generator_version \"1.0\")\n\t(symbol \"");
    out.append(name);
    out.append("\"\n\t\t(property \"Reference\" \"U\"\n\t\t\t(at 0 0 0)\n\t\t\t(effects (font (size 1.27 1.27))))\n\t\t(property \"Value\" \"");
    out.append(name);
    out.append("\"\n\t\t\t(at 0 0 0)\n\t\t\t(effects (font (size 1.27 1.27))))\n\t\t(property \"Description\" \"");
    out.append(desc);
    out.append("\"\n\t\t\t(at 0 0 0)\n\t\t\t(effects (font (size 1.27 1.27))))\n\t\t(property \"Footprint\" \"");
    out.append(fp);
    out.append("\"\n\t\t\t(at 0 0 0)\n\t\t\t(effects (font (size 1.27 1.27))))\n\t\t(symbol \"");
    out.append(name);
    out.append("_0_1\"\n\t\t\t(rectangle\n\t\t\t\t(start -2.54 2.54)\n\t\t\t\t(end 2.54 -2.54)\n\t\t\t\t(stroke (width 0.254) (type default))\n\t\t\t\t(fill (type background))))\n\t\t(symbol \"");
    out.append(name);
    out.append("_1_1\"\n\t\t\t(pin input line (at -5.08 0 0) (length 2.54)\n\t\t\t\t(number \"1\" (effects (font (size 1.27 1.27)))))\n\t\t\t(pin power_in line (at 0 5.08 270) (length 2.54)\n\t\t\t\t(number \"2\" (effects (font (size 1.27 1.27)))))\n\t\t\t(pin output line (at 5.08 0 180) (length 2.54)\n\t\t\t\t(number \"3\" (effects (font (size 1.27 1.27))))))\n\t)\n)\n");
    assert(out@ =~= regulator_3pin_text(name@, desc@, fp@));
    out
}

} // verus!
