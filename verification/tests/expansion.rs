use makefile_checker::expand::expand_vars;
use makefile_checker::vars::VarMap;

fn vars(pairs: &[(&str, &str)]) -> VarMap {
    let mut m = VarMap::new();
    for (k, v) in pairs {
        m.insert(k.to_string(), v.to_string());
    }
    m
}

fn plain(input: &str) -> String {
    expand_vars(input, &VarMap::new())
}

#[test]
fn plain_text_is_kept() {
    assert_eq!(plain("1.2.3-foo_bar"), "1.2.3-foo_bar");
    assert_eq!(plain(""), "");
}

#[test]
fn variable_gives_its_value() {
    let m = vars(&[("A", "x-y")]);
    assert_eq!(expand_vars("$(A)", &m), "x-y");
    assert_eq!(expand_vars("${A}", &m), "x-y");
    assert_eq!(expand_vars("<$( A )>", &m), "<x-y>");
}

#[test]
fn missing_variable_is_kept() {
    assert_eq!(plain("a$(NOPE)b"), "a$(NOPE)b");
    assert_eq!(plain("$(NOPE"), "$(NOPE");
}

#[test]
fn values_are_expanded_in_turn() {
    let m = vars(&[("A", "$(B).$(C)"), ("B", "1"), ("C", "$(B)2")]);
    assert_eq!(expand_vars("$(A)", &m), "1.12");
}

#[test]
fn variable_that_names_itself_ends() {
    let m = vars(&[("A", "$(A)")]);
    assert_eq!(expand_vars("$(A)", &m), "$(A)");
}

#[test]
fn doubled_dollar_is_one() {
    assert_eq!(plain("a$$b"), "a$b");
}

#[test]
fn question_mark_at_the_end_is_dropped() {
    assert_eq!(plain("https://host/file?"), "https://host/file");
    assert_eq!(plain("a?b"), "a?b");
}

#[test]
fn characters_beyond_ascii_stay() {
    assert_eq!(plain("é"), "é");
    assert_eq!(plain("包 $(subst a,ß,abc) $$"), "包 ßbc $");
}

#[test]
fn substitution_functions() {
    assert_eq!(plain("$(subst a,o,banana)"), "bonono");
    assert_eq!(plain("$(subst ., ,1.2.3)"), "1 2 3");
    assert_eq!(plain("$(patsubst %.c,%.o,a.c b.h c.c)"), "a.o b.h c.o");
    assert_eq!(plain("$(patsubst b.h,x,a.c b.h)"), "a.c x");
    let m = vars(&[("SRC", "a.c b.h c.c")]);
    assert_eq!(expand_vars("$(SRC:.c=.o)", &m), "a.o b.h c.o");
}

#[test]
fn word_functions() {
    assert_eq!(plain("$(strip  a   b )"), "a b");
    assert_eq!(plain("$(word 2,a b c)"), "b");
    assert_eq!(plain("$(word 0,a b c)"), "a");
    assert_eq!(plain("$(word 9,a b c)"), "");
    assert_eq!(plain("$(words a b c)"), "3");
    assert_eq!(plain("$(wordlist 2,3,a b c d)"), "b c");
    assert_eq!(plain("$(wordlist 0, 2 ,a b c d)"), "a b");
    assert_eq!(plain("$(wordlist 3,9,a b c d)"), "c d");
    assert_eq!(plain("$(wordlist x,1,a b)"), "a");
    assert_eq!(plain("$(wordlist 1,x,a b)"), "");
    assert_eq!(plain("$(wordlist 3,2,a b c)"), "");
    assert_eq!(plain("$(firstword a b c)"), "a");
    assert_eq!(plain("$(lastword a b c)"), "c");
}

#[test]
fn filter_functions() {
    assert_eq!(plain("$(filter %.c %.h,a.c b.o c.h)"), "a.c c.h");
    assert_eq!(plain("$(filter-out %.c,a.c b.o c.h)"), "b.o c.h");
    assert_eq!(plain("$(findstring na,banana)"), "na");
    assert_eq!(plain("$(findstring nx,banana)"), "");
}

#[test]
fn sorted_words_come_once_and_in_order() {
    assert_eq!(plain("$(sort c a b a c)"), "a b c");
    assert_eq!(plain("$(sort b B 10 9)"), "10 9 B b");
}

#[test]
fn name_functions() {
    assert_eq!(plain("$(dir a/b/c d)"), "a/b/ ./");
    assert_eq!(plain("$(notdir a/b/c d)"), "c d");
    assert_eq!(plain("$(suffix a.tar.gz b c.c)"), ".gz .c");
    assert_eq!(plain("$(basename a.tar.gz b)"), "a.tar b");
    assert_eq!(plain("$(addsuffix .c,a b)"), "a.c b.c");
    assert_eq!(plain("$(addprefix x/,a b)"), "x/a x/b");
    assert_eq!(plain("$(join a b c,1 2)"), "a1 b2 c");
}

#[test]
fn conditional_functions() {
    assert_eq!(plain("$(if x,yes,no)"), "yes");
    let m = vars(&[("E", ""), ("A", "a"), ("B", "b")]);
    assert_eq!(expand_vars("$(if $(E),yes,no)", &m), "no");
    assert_eq!(expand_vars("$(or $(E),$(B))", &m), "b");
    assert_eq!(expand_vars("$(and $(A),$(B))", &m), "b");
    assert_eq!(expand_vars("$(and $(A),$(E),$(B))", &m), "");
}

#[test]
fn functions_of_variables() {
    let m = vars(&[("F", "$(A)!"), ("A", "a")]);
    assert_eq!(expand_vars("$(call F,1,2)", &m), "a!");
    assert_eq!(expand_vars("$(call NOPE,1)", &m), "");
    // the value is taken as it is, and the next pass expands it
    assert_eq!(expand_vars("$(value F)", &m), "a!");
    assert_eq!(expand_vars("$(origin F)", &m), "");
}

#[test]
fn unknown_functions_are_kept() {
    assert_eq!(plain("$(shell git describe)"), "$(shell git describe)");
    assert_eq!(plain("$(foreach v,a b,x)"), "$(foreach v,a b,x)");
}
