//! The rules, one module each.

pub mod kmd001;
pub mod kmd007;
pub mod kmd011;
pub mod md009;
pub mod md010;
pub mod md012;
pub mod md013;
pub mod md003;
pub mod md004;
pub mod md029;
pub mod md043;
pub mod md031;
pub mod md027;
pub mod md028;
pub mod md047;
pub mod md014;
pub mod md018;
pub mod md026;
pub mod md019;
pub mod md020;
pub mod md021;
pub mod md023;
pub mod md040;
pub mod md048;
pub mod md055;
pub mod md056;
pub mod md058;
pub mod md054;
pub mod md052;
pub mod md046;
pub mod kmd005;
pub mod md032;
pub mod md005;
pub mod md030;
pub mod kmd002;
pub mod kmd004;
pub mod kmd009;
pub mod md036;
pub mod md042;
pub mod md053;
pub mod md001;
pub mod kmd008;
pub mod md049;
pub mod md050;
pub mod md022;
pub mod md025;
pub mod md041;
pub mod md024;
pub mod md035;
pub mod kmd010;
pub mod kmd006;
pub mod md011;
pub mod md034;
pub mod md045;
pub mod md037;
pub mod md007;
pub mod md033;
pub mod md059;
pub mod md044;
pub mod md051;
