//! `bdd validate`: which exercise's evidence to print, which steps give it,
//! and, for observational exercises, the draft sentences offered to the student.
use vstd::prelude::*;
use std::collections::hash_map::DefaultHasher;
use std::hash::{Hash, Hasher};
use crate::flow::{
    current_exercise, done, exercise_list, first_open, last_ran_exercise, last_touched,
};
use crate::model::{Role, Step, exercises};
use crate::state::{State, StateView, has_prefix, with_item};
use crate::text::{dec, is_digit, parse_u8, parsed_u8, str_eq, u8_to_string};

verus! {

/// Whether an argument is an option (starts with `--`).
pub open spec fn is_option(a: Seq<char>) -> bool {
    has_prefix(a, "--"@)
}

/// The options of `bdd validate`: whether `--clean` is among the arguments,
/// and the index of the first argument that is not an option.
pub fn validate_args(args: &[String]) -> (r: (bool, Option<usize>))
    ensures
        r.0 == exists|i: int| 0 <= i < args@.len() && args@[i]@ == "--clean"@,
        match r.1 {
            Some(i) => i < args@.len() && !is_option(args@[i as int]@) && forall|j: int|
                0 <= j < i ==> is_option(#[trigger] args@[j]@),
            None => forall|j: int| 0 <= j < args@.len() ==> is_option(#[trigger] args@[j]@),
        },
{
    let mut clean = false;
    let mut first: Option<usize> = None;
    let mut i: usize = 0;
    while i < args.len()
        invariant
            i <= args@.len(),
            clean == exists|j: int| 0 <= j < i && args@[j]@ == "--clean"@,
            match first {
                Some(f) => f < i && !is_option(args@[f as int]@) && forall|j: int|
                    0 <= j < f ==> is_option(#[trigger] args@[j]@),
                None => forall|j: int| 0 <= j < i ==> is_option(#[trigger] args@[j]@),
            },
        decreases args@.len() - i,
    {
        let a = args[i].as_str();
        if str_eq(a, "--clean") {
            clean = true;
        }
        if first.is_none() && crate::text::strip_prefix(a, "--").is_none() {
            first = Some(i);
        }
        i = i + 1;
    }
    (clean, first)
}

/// `s` without its leading characters that are not ASCII digits.
pub open spec fn after_non_digits(s: Seq<char>) -> Seq<char>
    decreases s.len(),
{
    if s.len() > 0 && !is_digit(s[0]) {
        after_non_digits(s.drop_first())
    } else {
        s
    }
}

fn skip_non_digits(s: &str) -> (r: &str)
    ensures
        r@ == after_non_digits(s@),
{
    let n = s.unicode_len();
    let mut i: usize = 0;
    assert(s@.subrange(0, n as int) =~= s@);
    while i < n && !('0' <= s.get_char(i) && s.get_char(i) <= '9')
        invariant
            n == s@.len(),
            i <= n,
            after_non_digits(s@) == after_non_digits(s@.subrange(i as int, n as int)),
        decreases n - i,
    {
        assert(s@.subrange(i as int, n as int).drop_first() =~= s@.subrange(i + 1, n as int));
        i = i + 1;
    }
    s.substring_char(i, n)
}

/// The exercise that an argument such as `3` or `EX03` names, if it is one.
pub open spec fn exercise_named(steps: Seq<Step>, a: Seq<char>) -> Option<u8> {
    match parsed_u8(after_non_digits(a)) {
        Some(n) => if exercise_list(steps).contains(n) {
            Some(n)
        } else {
            None
        },
        None => None,
    }
}

/// The exercise whose evidence `bdd validate` prints: the one named by the
/// argument; without one, the last exercise with a step done, else the
/// current one, else the last one.
pub open spec fn evidence_exercise(steps: Seq<Step>, st: StateView, arg: Option<Seq<char>>) -> Option<u8> {
    match arg {
        Some(a) => exercise_named(steps, a),
        None => match last_touched(steps, st) {
            Some(x) => Some(x),
            None => match first_open(steps, st) {
                Some(x) => Some(x),
                None => Some(exercise_list(steps).last()),
            },
        },
    }
}

pub open spec fn opt_view(a: Option<&str>) -> Option<Seq<char>> {
    match a {
        Some(s) => Some(s@),
        None => None,
    }
}

/// The exercise whose evidence to print (`None`: the argument names none).
pub fn validate_exercise(steps: &[Step], st: &State, arg: Option<&str>) -> (r: Option<u8>)
    requires
        steps@.len() > 0,
    ensures
        r == evidence_exercise(steps@, st@, opt_view(arg)),
{
    let exs = exercises(steps);
    match arg {
        Some(a) => {
            let digits = skip_non_digits(a);
            match parse_u8(digits) {
                Some(n) => {
                    let mut k: usize = 0;
                    while k < exs.len()
                        invariant
                            k <= exs@.len(),
                            exs@ == exercise_list(steps@),
                            arg == Some(a),
                            Some(n) == parsed_u8(after_non_digits(a@)),
                            forall|j: int| 0 <= j < k ==> exs@[j] != n,
                        decreases exs@.len() - k,
                    {
                        if exs[k] == n {
                            assert(exs@[k as int] == n);
                            assert(exs@.contains(n));
                            return Some(n);
                        }
                        k = k + 1;
                    }
                    None
                },
                None => None,
            }
        },
        None => {
            match last_ran_exercise(steps, st) {
                Some(x) => Some(x),
                None => match current_exercise(steps, st) {
                    Some(x) => Some(x),
                    None => {
                        proof {
                            crate::model::lemma_exercises_distinct_complete(
                                crate::model::step_exs(steps@),
                            );
                            assert(crate::model::step_exs(steps@)[0] == steps@[0].ex);
                        }
                        Some(exs[exs.len() - 1])
                    },
                },
            }
        },
    }
}

/// The indices below `n` that satisfy `p`, in order.
pub open spec fn indices_where(n: nat, p: spec_fn(int) -> bool) -> Seq<usize>
    decreases n,
{
    if n == 0 {
        Seq::empty()
    } else if p(n - 1) {
        indices_where((n - 1) as nat, p).push((n - 1) as usize)
    } else {
        indices_where((n - 1) as nat, p)
    }
}

/// What `bdd validate` prints for an exercise on this machine.
pub enum ValidatePlan {
    /// Run the evidence commands of these steps (by index).
    Proofs(Vec<usize>),
    /// No step of the exercise runs here.
    NothingHere,
    /// Observational exercise: the student writes what was seen. The steps
    /// listed are those done here (`ran_any`), or else all of this machine's.
    Observational { ran_any: bool, listed: Vec<usize> },
}

/// Step `i` is of exercise `ex` and runs on `role`.
pub open spec fn role_step(steps: Seq<Step>, ex: u8, role: Role, i: int) -> bool {
    steps[i].ex == ex && steps[i].roles@.contains(role)
}

pub open spec fn with_proof(steps: Seq<Step>, ex: u8, role: Role) -> Seq<usize> {
    indices_where(steps.len(), |i: int| role_step(steps, ex, role, i) && steps[i].proof@.len() > 0)
}

pub open spec fn role_steps(steps: Seq<Step>, ex: u8, role: Role) -> Seq<usize> {
    indices_where(steps.len(), |i: int| role_step(steps, ex, role, i))
}

pub open spec fn role_steps_done(steps: Seq<Step>, st: StateView, ex: u8, role: Role) -> Seq<usize> {
    indices_where(steps.len(), |i: int| role_step(steps, ex, role, i) && done(st, steps[i]))
}

/// The plan of `bdd validate` for exercise `ex`, as plain values.
pub open spec fn plan_spec(steps: Seq<Step>, st: StateView, ex: u8, role: Role) -> (u8, Seq<usize>, bool) {
    if with_proof(steps, ex, role).len() > 0 {
        (0, with_proof(steps, ex, role), false)
    } else if role_steps(steps, ex, role).len() == 0 {
        (1, Seq::empty(), false)
    } else if role_steps_done(steps, st, ex, role).len() > 0 {
        (2, role_steps_done(steps, st, ex, role), true)
    } else {
        (2, role_steps(steps, ex, role), false)
    }
}

impl ValidatePlan {
    pub open spec fn as_tuple(&self) -> (u8, Seq<usize>, bool) {
        match self {
            ValidatePlan::Proofs(v) => (0, v@, false),
            ValidatePlan::NothingHere => (1, Seq::empty(), false),
            ValidatePlan::Observational { ran_any, listed } => (2, listed@, *ran_any),
        }
    }
}

/// The indices of the steps of `ex` on `role`, of those that have evidence,
/// and of those done.
fn collect_indices(steps: &[Step], st: &State, ex: u8, role: Role) -> (r: (
    Vec<usize>,
    Vec<usize>,
    Vec<usize>,
))
    ensures
        r.0@ == role_steps(steps@, ex, role),
        r.1@ == with_proof(steps@, ex, role),
        r.2@ == role_steps_done(steps@, st@, ex, role),
{
    let mut all: Vec<usize> = Vec::new();
    let mut proofs: Vec<usize> = Vec::new();
    let mut ran: Vec<usize> = Vec::new();
    let mut i: usize = 0;
    while i < steps.len()
        invariant
            i <= steps@.len(),
            all@ == indices_where(i as nat, |j: int| role_step(steps@, ex, role, j)),
            proofs@ == indices_where(
                i as nat,
                |j: int| role_step(steps@, ex, role, j) && steps@[j].proof@.len() > 0,
            ),
            ran@ == indices_where(
                i as nat,
                |j: int| role_step(steps@, ex, role, j) && done(st@, steps@[j]),
            ),
        decreases steps@.len() - i,
    {
        let s = &steps[i];
        if s.ex == ex && s.for_role(role) {
            all.push(i);
            if s.proof.unicode_len() > 0 {
                proofs.push(i);
            }
            let id = s.id();
            if st.has_ran(id.as_str()) {
                ran.push(i);
            }
        }
        i = i + 1;
    }
    (all, proofs, ran)
}

/// What `bdd validate` prints for exercise `ex` on this machine.
pub fn validate_plan(steps: &[Step], st: &State, ex: u8, role: Role) -> (r: ValidatePlan)
    ensures
        r.as_tuple() == plan_spec(steps@, st@, ex, role),
{
    let (all, proofs, ran) = collect_indices(steps, st, ex, role);
    if proofs.len() > 0 {
        ValidatePlan::Proofs(proofs)
    } else if all.len() == 0 {
        ValidatePlan::NothingHere
    } else if ran.len() > 0 {
        ValidatePlan::Observational { ran_any: true, listed: ran }
    } else {
        ValidatePlan::Observational { ran_any: false, listed: all }
    }
}

/// Records that the evidence of exercise `ex` was printed; says whether the
/// state changed (and must be saved).
pub fn mark_validated(st: &mut State, ex: u8) -> (changed: bool)
    ensures
        final(st)@ == (StateView {
            validated: with_item(old(st)@.validated, dec(ex as nat)),
            ..old(st)@
        }),
        changed == !old(st)@.validated.contains(dec(ex as nat)),
{
    if !crate::flow::ex_validated(st, ex) {
        let e = u8_to_string(ex);
        let ghost o = st.validated.deep_view();
        st.validated.push(e);
        assert(st.validated.deep_view() =~= o.push(dec(ex as nat)));
        true
    } else {
        false
    }
}

/// What the student writes for an observational exercise.
pub open spec fn observational_text(ex: u8) -> Seq<char> {
    if ex == 4 {
        HINT_EX04@
    } else {
        HINT_OTHER@
    }
}

pub const HINT_EX04: &'static str = "Cenários de cluster degradado (nós de dados e/ou MGM desligados). Para cada passo, escreva o que aconteceu: a operação foi aceita ou recusada, qual foi a mensagem/erro, e por que o cluster se comportou assim (réplicas, papel do MGM, etc.).";

pub const HINT_OTHER: &'static str = "Exercício observacional. Para cada passo, escreva com suas palavras o que você observou ao rodar e por que o sistema se comportou daquele jeito.";

/// What the student writes for an observational exercise (there is no
/// command output to capture).
pub fn observational_hint(ex: u8) -> (r: &'static str)
    ensures
        r@ == observational_text(ex),
{
    if ex == 4 {
        HINT_EX04
    } else {
        HINT_OTHER
    }
}

pub const DRAFT_4_1_A: &'static str = "Funcionou: com NoOfReplicas=2 o N1 guarda cópia completa, então sozinho atende a escrita mesmo com o N2 fora.";
pub const DRAFT_4_1_B: &'static str = "O INSERT no N1 foi aceito sem o N2, porque a réplica local cobre todos os fragmentos.";
pub const DRAFT_4_1_C: &'static str = "A escrita ocorreu normalmente; a redundância mantém o dado disponível com um único nó de dados ativo.";
pub const DRAFT_4_2_A: &'static str = "Funcionou: o MGM não entra na transação de dados, então a escrita segue mesmo com ele desligado.";
pub const DRAFT_4_2_B: &'static str = "INSERT aceito sem o MGM, pois com o cluster já no ar as operações de dados não passam por ele.";
pub const DRAFT_4_2_C: &'static str = "A inserção não dependeu do MGM, que cuida de gestão e arbitragem, não do caminho dos dados.";
pub const DRAFT_4_3_A: &'static str = "A criação da tabela concluiu com o N2 fora; o schema é sincronizado quando ele reingressa.";
pub const DRAFT_4_3_B: &'static str = "CREATE TABLE funcionou com um nó de dados só, ficando o N2 atualizado ao voltar.";
pub const DRAFT_4_3_C: &'static str = "A tabela foi criada mesmo sem o N2: um nó ativo basta e o ausente recebe o schema depois.";
pub const DRAFT_4_4_A: &'static str = "CREATE TABLE funcionou sem o MGM: a DDL é coordenada pelos nós de dados.";
pub const DRAFT_4_4_B: &'static str = "A tabela foi criada com o MGM desligado, já que ele não participa da criação de schema.";
pub const DRAFT_4_4_C: &'static str = "A criação concluiu sem o MGM, confirmando que DDL não depende do gerenciador.";
pub const DRAFT_4_5_A: &'static str = "CREATE DATABASE funcionou: é operação local do SQL node, não distribuída pelo NDB.";
pub const DRAFT_4_5_B: &'static str = "O database foi criado no N1 sem o N2, pois não depende do outro nó (operação local).";
pub const DRAFT_4_5_C: &'static str = "Criou normalmente; o database é local ao SQL node e não exige os dois nós.";
pub const DRAFT_4_6_A: &'static str = "CREATE DATABASE funcionou sem o MGM: operação local do SQL node, independe dele.";
pub const DRAFT_4_6_B: &'static str = "O database foi criado com o MGM fora, já que essa operação não envolve o gerenciador.";
pub const DRAFT_4_6_C: &'static str = "Criou sem problema; não há participação do MGM em CREATE DATABASE.";
pub const DRAFT_4_7_A: &'static str = "Funcionou com só o N1 no ar: ele tem cópia completa e segue operando, embora sem rede de segurança (sem MGM nem segundo nó).";
pub const DRAFT_4_7_B: &'static str = "A escrita ocorreu apenas com o N1, mostrando que um nó com réplica completa basta; porém fica frágil a falhas e reinício.";
pub const DRAFT_4_7_C: &'static str = "INSERT aceito só no N1; o dado é gravado, mas sem MGM e sem o N2 não há recuperação se algo cair.";
pub const DRAFT_4_8_A: &'static str = "CREATE TABLE no N2 funcionou sozinho: ele tem cópia completa e coordena a DDL.";
pub const DRAFT_4_8_B: &'static str = "A tabela foi criada só com o N2 ativo, simétrico ao caso do N1.";
pub const DRAFT_4_8_C: &'static str = "Concluiu apenas com o N2; um nó com réplica completa cria o schema, ainda que sem redundância no momento.";
pub const DRAFT_4_9_A: &'static str = "CREATE DATABASE no N2 funcionou: operação local do SQL node, independe do resto.";
pub const DRAFT_4_9_B: &'static str = "O database foi criado só com o N2, por ser operação local.";
pub const DRAFT_4_9_C: &'static str = "Criou normalmente no N2, sem precisar do MGM nem do N1.";
pub const DRAFT_4_10_A: &'static str = "Os 1000 registros entraram no N1; ao religar, o N2 ressincronizou e ficou com todos, comprovando replicação automática.";
pub const DRAFT_4_10_B: &'static str = "Inseri 1000 no N1 com o N2 fora; quando o N2 voltou, a recuperação de nó copiou tudo, e a leitura nele mostrou os 1000.";
pub const DRAFT_4_10_C: &'static str = "Após religar o N2, ele recuperou os 1000 registros inseridos durante a ausência, confirmando consistência na reentrada.";
pub const DRAFT_4_11_A: &'static str = "O MGM é necessário para iniciar/configurar o cluster e, principalmente, para arbitragem contra split-brain; com tudo estável, os dados não dependem dele.";
pub const DRAFT_4_11_B: &'static str = "Sem o MGM o cluster não sobe nem recupera falhas: ele registra os nós, monitora e arbitra partições, mesmo sem entrar no caminho dos dados.";
pub const DRAFT_4_11_C: &'static str = "O papel do MGM é gestão e arbitragem (evitar que dois lados se achem o cluster); operações de dados rodam sem ele, mas a recuperação e o reinício de nós, não.";

/// The draft sentences offered for an observational step. They are not the
/// answer: the student rewrites them.
pub open spec fn draft_texts(id: Seq<char>) -> Seq<Seq<char>> {
    if id == "4.1"@ {
        seq![DRAFT_4_1_A@, DRAFT_4_1_B@, DRAFT_4_1_C@]
    } else if id == "4.2"@ {
        seq![DRAFT_4_2_A@, DRAFT_4_2_B@, DRAFT_4_2_C@]
    } else if id == "4.3"@ {
        seq![DRAFT_4_3_A@, DRAFT_4_3_B@, DRAFT_4_3_C@]
    } else if id == "4.4"@ {
        seq![DRAFT_4_4_A@, DRAFT_4_4_B@, DRAFT_4_4_C@]
    } else if id == "4.5"@ {
        seq![DRAFT_4_5_A@, DRAFT_4_5_B@, DRAFT_4_5_C@]
    } else if id == "4.6"@ {
        seq![DRAFT_4_6_A@, DRAFT_4_6_B@, DRAFT_4_6_C@]
    } else if id == "4.7"@ {
        seq![DRAFT_4_7_A@, DRAFT_4_7_B@, DRAFT_4_7_C@]
    } else if id == "4.8"@ {
        seq![DRAFT_4_8_A@, DRAFT_4_8_B@, DRAFT_4_8_C@]
    } else if id == "4.9"@ {
        seq![DRAFT_4_9_A@, DRAFT_4_9_B@, DRAFT_4_9_C@]
    } else if id == "4.10"@ {
        seq![DRAFT_4_10_A@, DRAFT_4_10_B@, DRAFT_4_10_C@]
    } else if id == "4.11"@ {
        seq![DRAFT_4_11_A@, DRAFT_4_11_B@, DRAFT_4_11_C@]
    } else {
        Seq::empty()
    }
}

/// Each step of the degraded-cluster exercise is offered the three drafts
/// written for it, and no other: step 4.k gets DRAFT_4_k_A, _B and _C.
pub proof fn lemma_drafts_of_each_step()
    ensures
        draft_texts("4.1"@) == seq![DRAFT_4_1_A@, DRAFT_4_1_B@, DRAFT_4_1_C@],
        draft_texts("4.2"@) == seq![DRAFT_4_2_A@, DRAFT_4_2_B@, DRAFT_4_2_C@],
        draft_texts("4.3"@) == seq![DRAFT_4_3_A@, DRAFT_4_3_B@, DRAFT_4_3_C@],
        draft_texts("4.4"@) == seq![DRAFT_4_4_A@, DRAFT_4_4_B@, DRAFT_4_4_C@],
        draft_texts("4.5"@) == seq![DRAFT_4_5_A@, DRAFT_4_5_B@, DRAFT_4_5_C@],
        draft_texts("4.6"@) == seq![DRAFT_4_6_A@, DRAFT_4_6_B@, DRAFT_4_6_C@],
        draft_texts("4.7"@) == seq![DRAFT_4_7_A@, DRAFT_4_7_B@, DRAFT_4_7_C@],
        draft_texts("4.8"@) == seq![DRAFT_4_8_A@, DRAFT_4_8_B@, DRAFT_4_8_C@],
        draft_texts("4.9"@) == seq![DRAFT_4_9_A@, DRAFT_4_9_B@, DRAFT_4_9_C@],
        draft_texts("4.10"@) == seq![DRAFT_4_10_A@, DRAFT_4_10_B@, DRAFT_4_10_C@],
        draft_texts("4.11"@) == seq![DRAFT_4_11_A@, DRAFT_4_11_B@, DRAFT_4_11_C@],
{
    reveal_strlit("4.1");
    reveal_strlit("4.2");
    reveal_strlit("4.3");
    reveal_strlit("4.4");
    reveal_strlit("4.5");
    reveal_strlit("4.6");
    reveal_strlit("4.7");
    reveal_strlit("4.8");
    reveal_strlit("4.9");
    reveal_strlit("4.10");
    reveal_strlit("4.11");
    assert("4.2"@[2] != "4.1"@[2]);
    assert("4.3"@[2] != "4.1"@[2]);
    assert("4.3"@[2] != "4.2"@[2]);
    assert("4.4"@[2] != "4.1"@[2]);
    assert("4.4"@[2] != "4.2"@[2]);
    assert("4.4"@[2] != "4.3"@[2]);
    assert("4.5"@[2] != "4.1"@[2]);
    assert("4.5"@[2] != "4.2"@[2]);
    assert("4.5"@[2] != "4.3"@[2]);
    assert("4.5"@[2] != "4.4"@[2]);
    assert("4.6"@[2] != "4.1"@[2]);
    assert("4.6"@[2] != "4.2"@[2]);
    assert("4.6"@[2] != "4.3"@[2]);
    assert("4.6"@[2] != "4.4"@[2]);
    assert("4.6"@[2] != "4.5"@[2]);
    assert("4.7"@[2] != "4.1"@[2]);
    assert("4.7"@[2] != "4.2"@[2]);
    assert("4.7"@[2] != "4.3"@[2]);
    assert("4.7"@[2] != "4.4"@[2]);
    assert("4.7"@[2] != "4.5"@[2]);
    assert("4.7"@[2] != "4.6"@[2]);
    assert("4.8"@[2] != "4.1"@[2]);
    assert("4.8"@[2] != "4.2"@[2]);
    assert("4.8"@[2] != "4.3"@[2]);
    assert("4.8"@[2] != "4.4"@[2]);
    assert("4.8"@[2] != "4.5"@[2]);
    assert("4.8"@[2] != "4.6"@[2]);
    assert("4.8"@[2] != "4.7"@[2]);
    assert("4.9"@[2] != "4.1"@[2]);
    assert("4.9"@[2] != "4.2"@[2]);
    assert("4.9"@[2] != "4.3"@[2]);
    assert("4.9"@[2] != "4.4"@[2]);
    assert("4.9"@[2] != "4.5"@[2]);
    assert("4.9"@[2] != "4.6"@[2]);
    assert("4.9"@[2] != "4.7"@[2]);
    assert("4.9"@[2] != "4.8"@[2]);
    assert("4.10"@.len() != "4.1"@.len());
    assert("4.10"@.len() != "4.2"@.len());
    assert("4.10"@.len() != "4.3"@.len());
    assert("4.10"@.len() != "4.4"@.len());
    assert("4.10"@.len() != "4.5"@.len());
    assert("4.10"@.len() != "4.6"@.len());
    assert("4.10"@.len() != "4.7"@.len());
    assert("4.10"@.len() != "4.8"@.len());
    assert("4.10"@.len() != "4.9"@.len());
    assert("4.11"@.len() != "4.1"@.len());
    assert("4.11"@.len() != "4.2"@.len());
    assert("4.11"@.len() != "4.3"@.len());
    assert("4.11"@.len() != "4.4"@.len());
    assert("4.11"@.len() != "4.5"@.len());
    assert("4.11"@.len() != "4.6"@.len());
    assert("4.11"@.len() != "4.7"@.len());
    assert("4.11"@.len() != "4.8"@.len());
    assert("4.11"@.len() != "4.9"@.len());
    assert("4.11"@[3] != "4.10"@[3]);
}

/// The draft sentences offered for step `id`.
pub fn step_draft_variants(id: &str) -> (r: &'static [&'static str])
    ensures
        r@.map_values(|s: &str| s@) == draft_texts(id@),
{
    if str_eq(id, "4.1") {
        &[DRAFT_4_1_A, DRAFT_4_1_B, DRAFT_4_1_C]
    } else if str_eq(id, "4.2") {
        &[DRAFT_4_2_A, DRAFT_4_2_B, DRAFT_4_2_C]
    } else if str_eq(id, "4.3") {
        &[DRAFT_4_3_A, DRAFT_4_3_B, DRAFT_4_3_C]
    } else if str_eq(id, "4.4") {
        &[DRAFT_4_4_A, DRAFT_4_4_B, DRAFT_4_4_C]
    } else if str_eq(id, "4.5") {
        &[DRAFT_4_5_A, DRAFT_4_5_B, DRAFT_4_5_C]
    } else if str_eq(id, "4.6") {
        &[DRAFT_4_6_A, DRAFT_4_6_B, DRAFT_4_6_C]
    } else if str_eq(id, "4.7") {
        &[DRAFT_4_7_A, DRAFT_4_7_B, DRAFT_4_7_C]
    } else if str_eq(id, "4.8") {
        &[DRAFT_4_8_A, DRAFT_4_8_B, DRAFT_4_8_C]
    } else if str_eq(id, "4.9") {
        &[DRAFT_4_9_A, DRAFT_4_9_B, DRAFT_4_9_C]
    } else if str_eq(id, "4.10") {
        &[DRAFT_4_10_A, DRAFT_4_10_B, DRAFT_4_10_C]
    } else if str_eq(id, "4.11") {
        &[DRAFT_4_11_A, DRAFT_4_11_B, DRAFT_4_11_C]
    } else {
        &[]
    }
}

/// The variant at position `h` modulo their number ("" when there is none).
pub fn variant_at(opts: &[&'static str], h: u64) -> (r: &'static str)
    ensures
        opts@.len() == 0 ==> r@ == ""@,
        opts@.len() > 0 ==> r == opts@[(h as nat % opts@.len()) as int],
{
    if opts.len() == 0 {
        return "";
    }
    let n = opts.len() as u64;
    let k = (h % n) as usize;
    opts[k]
}

/// `<u64 as Hash>::hash` into a `DefaultHasher`. What it writes is the
/// number's bytes in the machine's byte order, so nothing is said of it here.
#[verifier::external_body]
fn hash_u64(h: &mut DefaultHasher, x: u64) {
    Hash::hash(&x, h);
}

/// `<str as Hash>::hash` into a `DefaultHasher`. What it writes is not
/// documented as stable across platforms or compiler versions, so nothing is
/// said of it here.
#[verifier::external_body]
fn hash_str(h: &mut DefaultHasher, s: &str) {
    Hash::hash(s, h);
}

/// A number mixed from the seed and the step: a fresh `DefaultHasher` fed
/// with both, finished. Its value rests on the machine; nothing is said of it.
fn mix_hash(seed: u64, salt: &str) -> u64 {
    let mut h = DefaultHasher::new();
    hash_u64(&mut h, seed);
    hash_str(&mut h, salt);
    h.finish()
}

/// Picks one of the variants for (seed, step); "" when there is none. Which
/// one rests on the hash of the pair, a number that depends on the machine;
/// `variant_at` states the pick for each value of it.
pub fn pick_variant(opts: &[&'static str], seed: u64, salt: &str) -> (r: &'static str)
    ensures
        opts@.len() == 0 ==> r@ == ""@,
        opts@.len() > 0 ==> opts@.contains(r),
{
    if opts.len() == 0 {
        return "";
    }
    let h = mix_hash(seed, salt);
    let r = variant_at(opts, h);
    assert(opts@[(h as nat % opts@.len()) as int] == r);
    r
}

} // verus!
