//! The model: the machines' roles, the exercises' steps and the manifest
//! of all steps in the order in which they are done.
use vstd::prelude::*;
use crate::text::{
    all_ascii, ascii_lower, dec, digit_char, is_digit, joined, lowercase_of, str_eq, to_lowercase,
    trim, trimmed, trimmed_end, trimmed_start, u8_to_string,
};

verus! {

/// A machine of the cluster.
#[derive(Clone, Copy, PartialEq, Eq, Debug, Structural)]
pub enum Role {
    Mgm,
    N1,
    N2,
}

/// The short code of a role, as stored and as passed to the step scripts.
pub open spec fn role_code(r: Role) -> Seq<char> {
    match r {
        Role::Mgm => "mgm"@,
        Role::N1 => "n1"@,
        Role::N2 => "n2"@,
    }
}

/// The display name of a role.
pub open spec fn role_name(r: Role) -> Seq<char> {
    match r {
        Role::Mgm => "MGM"@,
        Role::N1 => "N1"@,
        Role::N2 => "N2"@,
    }
}

/// The internal IP address of a role's machine.
pub open spec fn role_ip(r: Role) -> Seq<char> {
    match r {
        Role::Mgm => "192.168.1.1"@,
        Role::N1 => "192.168.1.2"@,
        Role::N2 => "192.168.1.3"@,
    }
}

/// The role that a (trimmed, lowercased) answer names: its code or its number.
pub open spec fn role_from_text(t: Seq<char>) -> Option<Role> {
    if t == "mgm"@ || t == "1"@ {
        Some(Role::Mgm)
    } else if t == "n1"@ || t == "2"@ {
        Some(Role::N1)
    } else if t == "n2"@ || t == "3"@ {
        Some(Role::N2)
    } else {
        None
    }
}

/// What `Role::from_str` gives on `s`: the role named by `s` trimmed and
/// lowercased (for ASCII text, lowercasing maps `A`..`Z` to `a`..`z`).
pub open spec fn role_answer(s: Seq<char>) -> Option<Role> {
    if all_ascii(trimmed(s)) {
        role_from_text(ascii_lower(trimmed(s)))
    } else {
        role_from_text(lowercase_of(trimmed(s)))
    }
}

impl Role {
    pub fn code(self) -> (r: &'static str)
        ensures
            r@ == role_code(self),
    {
        match self {
            Role::Mgm => "mgm",
            Role::N1 => "n1",
            Role::N2 => "n2",
        }
    }

    pub fn name(self) -> (r: &'static str)
        ensures
            r@ == role_name(self),
    {
        match self {
            Role::Mgm => "MGM",
            Role::N1 => "N1",
            Role::N2 => "N2",
        }
    }

    pub fn ip(self) -> (r: &'static str)
        ensures
            r@ == role_ip(self),
    {
        match self {
            Role::Mgm => "192.168.1.1",
            Role::N1 => "192.168.1.2",
            Role::N2 => "192.168.1.3",
        }
    }

    /// The role that a user's answer names: `mgm`/`1`, `n1`/`2`, `n2`/`3`,
    /// ignoring surrounding whitespace and letter case.
    pub fn from_str(s: &str) -> (r: Option<Role>)
        ensures
            r == role_answer(s@),
    {
        let t = trim(s);
        let low = to_lowercase(t);
        let l = low.as_str();
        if str_eq(l, "mgm") || str_eq(l, "1") {
            Some(Role::Mgm)
        } else if str_eq(l, "n1") || str_eq(l, "2") {
            Some(Role::N1)
        } else if str_eq(l, "n2") || str_eq(l, "3") {
            Some(Role::N2)
        } else {
            None
        }
    }

    /// The three roles, in cluster order.
    pub fn all() -> (r: [Role; 3])
        ensures
            r@ == seq![Role::Mgm, Role::N1, Role::N2],
    {
        [Role::Mgm, Role::N1, Role::N2]
    }
}

/// One step of an exercise.
pub struct Step {
    pub ex: u8,
    pub st: u8,
    /// The machines on which the step runs.
    pub roles: &'static [Role],
    pub title: &'static str,
    /// Path, within the project, of the bash script that the step runs.
    pub script: &'static str,
    /// Shell test that tells whether the step's effect is in place ("" for none).
    pub validate: &'static str,
    /// Shell command whose output is the step's evidence ("" for none).
    pub proof: &'static str,
    /// Optional step: `next` does not ask for it.
    pub optional: bool,
}

/// The mathematical content of a step.
pub struct StepView {
    pub ex: u8,
    pub st: u8,
    pub roles: Seq<Role>,
    pub title: Seq<char>,
    pub script: Seq<char>,
    pub validate: Seq<char>,
    pub proof: Seq<char>,
    pub optional: bool,
}

impl View for Step {
    type V = StepView;

    open spec fn view(&self) -> StepView {
        StepView {
            ex: self.ex,
            st: self.st,
            roles: self.roles@,
            title: self.title@,
            script: self.script@,
            validate: self.validate@,
            proof: self.proof@,
            optional: self.optional,
        }
    }
}

/// The identifier `X.Y` of step `Y` of exercise `X`.
pub open spec fn step_id(ex: u8, st: u8) -> Seq<char> {
    dec(ex as nat) + seq!['.'] + dec(st as nat)
}

/// The short label of a step's machines: "todas" for all three, else the
/// names joined with " e ".
pub open spec fn machines_label_of(roles: Seq<Role>) -> Seq<char> {
    if roles.len() == 3 {
        "todas"@
    } else {
        joined(roles.map_values(|r: Role| role_name(r)), " e "@)
    }
}

impl Step {
    pub open spec fn spec_id(&self) -> Seq<char> {
        step_id(self.ex, self.st)
    }

    pub fn id(&self) -> (r: String)
        ensures
            r@ == step_id(self.ex, self.st),
    {
        let mut s = u8_to_string(self.ex);
        s.append(".");
        let b = u8_to_string(self.st);
        s.append(b.as_str());
        proof {
            reveal_strlit(".");
        }
        s
    }

    pub fn for_role(&self, r: Role) -> (b: bool)
        ensures
            b == self.roles@.contains(r),
    {
        let mut i: usize = 0;
        while i < self.roles.len()
            invariant
                i <= self.roles@.len(),
                forall|j: int| 0 <= j < i ==> self.roles@[j] != r,
            decreases self.roles@.len() - i,
        {
            if self.roles[i] == r {
                return true;
            }
            i = i + 1;
        }
        false
    }

    /// Short text of the step's machines: "MGM", "N1 e N2", "todas".
    pub fn machines_label(&self) -> (r: String)
        ensures
            r@ == machines_label_of(self.roles@),
    {
        if self.roles.len() == 3 {
            return "todas".to_string();
        }
        let mut names: Vec<String> = Vec::new();
        let mut i: usize = 0;
        while i < self.roles.len()
            invariant
                i <= self.roles@.len(),
                names.deep_view() == self.roles@.subrange(0, i as int).map_values(
                    |r: Role| role_name(r),
                ),
            decreases self.roles@.len() - i,
        {
            let ghost before = names.deep_view();
            let nm = self.roles[i].name().to_string();
            assert(nm@ == role_name(self.roles@[i as int]));
            names.push(nm);
            assert(names.deep_view() =~= before.push(nm@));
            assert(names.deep_view() =~= self.roles@.subrange(0, i + 1).map_values(
                |r: Role| role_name(r),
            ));
            i = i + 1;
        }
        assert(self.roles@.subrange(0, self.roles@.len() as int) =~= self.roles@);
        crate::text::join(&names, " e ")
    }
}

fn roles_all() -> (r: &'static [Role])
    ensures
        r@ == all_seq(),
{
    &[Role::Mgm, Role::N1, Role::N2]
}

fn roles_mgm() -> (r: &'static [Role])
    ensures
        r@ == mgm_seq(),
{
    &[Role::Mgm]
}

fn roles_data() -> (r: &'static [Role])
    ensures
        r@ == data_seq(),
{
    &[Role::N1, Role::N2]
}

fn roles_n1() -> (r: &'static [Role])
    ensures
        r@ == n1_seq(),
{
    &[Role::N1]
}

fn roles_n2() -> (r: &'static [Role])
    ensures
        r@ == n2_seq(),
{
    &[Role::N2]
}

pub open spec fn all_seq() -> Seq<Role> {
    seq![Role::Mgm, Role::N1, Role::N2]
}

pub open spec fn mgm_seq() -> Seq<Role> {
    seq![Role::Mgm]
}

pub open spec fn data_seq() -> Seq<Role> {
    seq![Role::N1, Role::N2]
}

pub open spec fn n1_seq() -> Seq<Role> {
    seq![Role::N1]
}

pub open spec fn n2_seq() -> Seq<Role> {
    seq![Role::N2]
}

/// An observational step of EX04: no validation, no evidence command.
pub open spec fn ex04_view(st: u8, roles: Seq<Role>, title: Seq<char>) -> StepView {
    StepView {
        ex: 4,
        st,
        roles,
        title,
        script: "EX04/cenarios.bash"@,
        validate: ""@,
        proof: ""@,
        optional: false,
    }
}

/// A step of EX08 that runs the Cassandra usage script.
pub open spec fn ex08_view(
    st: u8,
    roles: Seq<Role>,
    title: Seq<char>,
    validate: Seq<char>,
    proof: Seq<char>,
) -> StepView {
    StepView {
        ex: 8,
        st,
        roles,
        title,
        script: "EX08/cassandra-uso.bash"@,
        validate,
        proof,
        optional: false,
    }
}

/// Every step of the exercises, in the order in which they are done.
pub open spec fn manifest_view() -> Seq<StepView> {
    seq![

        // ---- EX02: rede ----
        StepView {
            ex: 2, st: 1, roles: all_seq(),
            title: "Configurar rede interna (IP estático + hostname)"@,
            script: "EX02/01_ALL_configura-rede.bash"@,
            validate: r#"case "${BDD_ROLE:-}" in mgm) E=192.168.1.1;; n1) E=192.168.1.2;; n2) E=192.168.1.3;; *) exit 1;; esac; ip -4 addr 2>/dev/null | grep -q "inet ${E}/""#@,
            proof: "hostname; ip -4 addr show enp0s8 2>/dev/null | grep -w inet"@,
            optional: false,
        },
        StepView {
            ex: 2, st: 2, roles: all_seq(),
            title: "Verificar conectividade entre as máquinas (ping)"@,
            script: "EX02/02_ALL_verifica-rede.bash"@,
            validate: r#"case "${BDD_ROLE:-}" in mgm) P="192.168.1.2 192.168.1.3";; n1) P="192.168.1.1 192.168.1.3";; n2) P="192.168.1.1 192.168.1.2";; *) exit 1;; esac; for ip in $P; do ping -c1 -W2 "$ip" >/dev/null 2>&1 || exit 1; done"#@,
            proof: r#"case "${BDD_ROLE:-}" in mgm) P="192.168.1.2 192.168.1.3";; n1) P="192.168.1.1 192.168.1.3";; n2) P="192.168.1.1 192.168.1.2";; *) P="192.168.1.1 192.168.1.2 192.168.1.3";; esac; for ip in $P; do ping -c2 -W2 "$ip"; done"#@,
            optional: false,
        },
        // ---- EX03: MySQL Cluster ----
        StepView {
            ex: 3, st: 1, roles: mgm_seq(),
            title: "Instalar o gerenciador do cluster"@,
            script: "EX03/01_MGM_instala-gerenciador.bash"@,
            validate: "pgrep -x ndb_mgmd >/dev/null 2>&1"@,
            proof: "ndb_mgm -e show"@,
            optional: false,
        },
        StepView {
            ex: 3, st: 2, roles: data_seq(),
            title: "Instalar o nó de dados (ndbd + mysqld)"@,
            script: "EX03/02_N1-N2_instala-no-de-dados.bash"@,
            validate: "pgrep -x ndbd >/dev/null 2>&1 && { pgrep -x mysqld >/dev/null 2>&1 || pgrep -x mysqld_safe >/dev/null 2>&1; }"@,
            proof: "pgrep -al ndbd; pgrep -al mysqld 2>/dev/null || pgrep -al mysqld_safe"@,
            optional: false,
        },
        StepView {
            ex: 3, st: 3, roles: mgm_seq(),
            title: "Verificar o cluster (nós conectados)"@,
            script: "EX03/03_MGM_verifica-cluster.bash"@,
            validate: "n=$(ndb_mgm -e show 2>/dev/null | grep -cE '@192\\.168\\.1\\.[23] '); [ \"${n:-0}\" -ge 2 ]"@,
            proof: "ndb_mgm -e show"@,
            optional: false,
        },
        StepView {
            ex: 3, st: 4, roles: n1_seq(),
            title: "Criar banco e inserir dados"@,
            script: "EX03/04_N1_cria-banco-e-insere.bash"@,
            validate: "mysql -u root -Nse 'SELECT count(*) FROM clusterdb.funcionarios' 2>/dev/null | grep -q '^3$'"@,
            proof: "mysql -u root -e 'SELECT * FROM clusterdb.funcionarios;'"@,
            optional: false,
        },
        StepView {
            ex: 3, st: 5, roles: n2_seq(),
            title: "Verificar a replicação no N2"@,
            script: "EX03/05_N2_verifica-replicacao.bash"@,
            validate: "mysql -u root -Nse 'SELECT count(*) FROM clusterdb.funcionarios' 2>/dev/null | grep -q '^3$'"@,
            proof: "mysql -u root -e 'SELECT * FROM clusterdb.funcionarios;'"@,
            optional: false,
        },
        // ---- EX04: uso do cluster em estados degradados (observacional) ----
        ex04_view(1, n1_seq(), "Inserir no N1 com o N2 desligado"@),
        ex04_view(2, n1_seq(), "Inserir no N1 com o MGM desligado"@),
        ex04_view(3, n1_seq(), "Criar tabela no N1 com o N2 desligado"@),
        ex04_view(4, n1_seq(), "Criar tabela no N1 com o MGM desligado"@),
        ex04_view(5, n1_seq(), "Criar database no N1 com o N2 desligado"@),
        ex04_view(6, n1_seq(), "Criar database no N1 com o MGM desligado"@),
        ex04_view(7, n1_seq(), "Inserir no N1 com todo o resto desligado"@),
        ex04_view(8, n2_seq(), "Criar tabela no N2 com todo o resto desligado"@),
        ex04_view(9, n2_seq(), "Criar database no N2 com todo o resto desligado"@),
        ex04_view(10, n1_seq(), "Inserir 1000 registros no N1 com o N2 desligado, depois religar o N2"@),
        ex04_view(11, mgm_seq(), "Descrever a necessidade do MGM"@),
        // ---- EX05: fragmentação horizontal ----
        StepView {
            ex: 5, st: 1, roles: n1_seq(),
            title: "Criar tabela ALUNO particionada (PARTITION BY KEY) e inserir 15 registros"@,
            script: "EX05/01_N1_cria-tabela-particionada.bash"@,
            validate: "c=$(mysql -u root -Nse 'SELECT COUNT(*) FROM clusterdb.aluno' 2>/dev/null); [ \"${c:-0}\" -ge 15 ]"@,
            proof: "mysql -u root -e 'SELECT * FROM clusterdb.aluno;'"@,
            optional: false,
        },
        StepView {
            ex: 5, st: 2, roles: n1_seq(),
            title: "Ver a distribuição dos registros entre as partições"@,
            script: "EX05/02_N1_distribuicao-particoes.bash"@,
            validate: "c=$(mysql -u root -Nse 'SELECT COUNT(*) FROM clusterdb.aluno' 2>/dev/null); [ \"${c:-0}\" -ge 15 ]"@,
            proof: r#"mysql -u root -e "SELECT partition_name, table_rows FROM information_schema.PARTITIONS WHERE table_schema='clusterdb' AND table_name='aluno';""#@,
            optional: false,
        },
        // ---- EX08: Cassandra (cluster separado; node1=.1 seed=MGM, node2=.2=N1, node3=.3=N2) ----
        StepView {
            ex: 8, st: 0, roles: all_seq(),
            title: "(opcional) Liberar memória parando o MySQL Cluster"@,
            script: "EX08/00_ALL_libera-memoria.bash"@,
            validate: ""@,
            proof: ""@,
            optional: true,
        },
        StepView {
            ex: 8, st: 1, roles: all_seq(),
            title: "Configurar rede interna + hostname (node1/node2/node3)"@,
            script: "EX08/01_ALL_configura-rede.bash"@,
            validate: r#"case "${BDD_ROLE:-}" in mgm) E=192.168.1.1;; n1) E=192.168.1.2;; n2) E=192.168.1.3;; *) exit 1;; esac; ip -4 addr 2>/dev/null | grep -q "inet ${E}/""#@,
            proof: "hostname; ip -4 addr show enp0s8 2>/dev/null | grep -w inet"@,
            optional: false,
        },
        StepView {
            ex: 8, st: 2, roles: all_seq(),
            title: "Configurar o cassandra.yaml e subir o serviço (node1 primeiro)"@,
            script: "EX08/02_ALL_configura-cassandra.bash"@,
            validate: "nodetool status >/dev/null 2>&1"@,
            proof: "nodetool status"@,
            optional: false,
        },
        ex08_view(3, mgm_seq(), "Verificar o cluster (nodetool status, 3 nós UN)"@, "n=$(nodetool status 2>/dev/null | grep -c '^UN'); [ \"${n:-0}\" -ge 3 ]"@, "nodetool status"@),
        ex08_view(4, mgm_seq(), "Criar keyspace (RF=3), tabela e inserir dados"@, "cqlsh 192.168.1.1 -e 'SELECT count(*) FROM classe.aluno;' 2>/dev/null | grep -qE '[1-9]'"@, "cqlsh 192.168.1.1 -e 'SELECT * FROM classe.aluno;'"@),
        ex08_view(5, n1_seq(), "Verificar a replicação lendo no node2"@, "cqlsh 192.168.1.2 -e 'SELECT count(*) FROM classe.aluno;' 2>/dev/null | grep -qE '[1-9]'"@, "cqlsh 192.168.1.2 -e 'SELECT * FROM classe.aluno;'"@),
        ex08_view(6, n2_seq(), "Verificar a replicação lendo no node3"@, "cqlsh 192.168.1.3 -e 'SELECT count(*) FROM classe.aluno;' 2>/dev/null | grep -qE '[1-9]'"@, "cqlsh 192.168.1.3 -e 'SELECT * FROM classe.aluno;'"@),
        ex08_view(7, mgm_seq(), "Testar a consistência (QUORUM vs ONE com nós off)"@, ""@, ""@),
    ]
}

/// All the steps, in order.
pub fn manifest() -> (r: Vec<Step>)
    ensures
        r@.len() == manifest_view().len(),
        forall|i: int| 0 <= i < r@.len() ==> #[trigger] r@[i]@ == manifest_view()[i],
{
    let v = vec![

        // ---- EX02: rede ----
        Step {
            ex: 2, st: 1, roles: roles_all(),
            title: "Configurar rede interna (IP estático + hostname)",
            script: "EX02/01_ALL_configura-rede.bash",
            validate: r#"case "${BDD_ROLE:-}" in mgm) E=192.168.1.1;; n1) E=192.168.1.2;; n2) E=192.168.1.3;; *) exit 1;; esac; ip -4 addr 2>/dev/null | grep -q "inet ${E}/""#,
            proof: "hostname; ip -4 addr show enp0s8 2>/dev/null | grep -w inet",
            optional: false,
        },
        Step {
            ex: 2, st: 2, roles: roles_all(),
            title: "Verificar conectividade entre as máquinas (ping)",
            script: "EX02/02_ALL_verifica-rede.bash",
            validate: r#"case "${BDD_ROLE:-}" in mgm) P="192.168.1.2 192.168.1.3";; n1) P="192.168.1.1 192.168.1.3";; n2) P="192.168.1.1 192.168.1.2";; *) exit 1;; esac; for ip in $P; do ping -c1 -W2 "$ip" >/dev/null 2>&1 || exit 1; done"#,
            proof: r#"case "${BDD_ROLE:-}" in mgm) P="192.168.1.2 192.168.1.3";; n1) P="192.168.1.1 192.168.1.3";; n2) P="192.168.1.1 192.168.1.2";; *) P="192.168.1.1 192.168.1.2 192.168.1.3";; esac; for ip in $P; do ping -c2 -W2 "$ip"; done"#,
            optional: false,
        },
        // ---- EX03: MySQL Cluster ----
        Step {
            ex: 3, st: 1, roles: roles_mgm(),
            title: "Instalar o gerenciador do cluster",
            script: "EX03/01_MGM_instala-gerenciador.bash",
            validate: "pgrep -x ndb_mgmd >/dev/null 2>&1",
            proof: "ndb_mgm -e show",
            optional: false,
        },
        Step {
            ex: 3, st: 2, roles: roles_data(),
            title: "Instalar o nó de dados (ndbd + mysqld)",
            script: "EX03/02_N1-N2_instala-no-de-dados.bash",
            validate: "pgrep -x ndbd >/dev/null 2>&1 && { pgrep -x mysqld >/dev/null 2>&1 || pgrep -x mysqld_safe >/dev/null 2>&1; }",
            proof: "pgrep -al ndbd; pgrep -al mysqld 2>/dev/null || pgrep -al mysqld_safe",
            optional: false,
        },
        Step {
            ex: 3, st: 3, roles: roles_mgm(),
            title: "Verificar o cluster (nós conectados)",
            script: "EX03/03_MGM_verifica-cluster.bash",
            validate: "n=$(ndb_mgm -e show 2>/dev/null | grep -cE '@192\\.168\\.1\\.[23] '); [ \"${n:-0}\" -ge 2 ]",
            proof: "ndb_mgm -e show",
            optional: false,
        },
        Step {
            ex: 3, st: 4, roles: roles_n1(),
            title: "Criar banco e inserir dados",
            script: "EX03/04_N1_cria-banco-e-insere.bash",
            validate: "mysql -u root -Nse 'SELECT count(*) FROM clusterdb.funcionarios' 2>/dev/null | grep -q '^3$'",
            proof: "mysql -u root -e 'SELECT * FROM clusterdb.funcionarios;'",
            optional: false,
        },
        Step {
            ex: 3, st: 5, roles: roles_n2(),
            title: "Verificar a replicação no N2",
            script: "EX03/05_N2_verifica-replicacao.bash",
            validate: "mysql -u root -Nse 'SELECT count(*) FROM clusterdb.funcionarios' 2>/dev/null | grep -q '^3$'",
            proof: "mysql -u root -e 'SELECT * FROM clusterdb.funcionarios;'",
            optional: false,
        },
        // ---- EX04: uso do cluster em estados degradados (observacional) ----
        ex04(1, roles_n1(), "Inserir no N1 com o N2 desligado"),
        ex04(2, roles_n1(), "Inserir no N1 com o MGM desligado"),
        ex04(3, roles_n1(), "Criar tabela no N1 com o N2 desligado"),
        ex04(4, roles_n1(), "Criar tabela no N1 com o MGM desligado"),
        ex04(5, roles_n1(), "Criar database no N1 com o N2 desligado"),
        ex04(6, roles_n1(), "Criar database no N1 com o MGM desligado"),
        ex04(7, roles_n1(), "Inserir no N1 com todo o resto desligado"),
        ex04(8, roles_n2(), "Criar tabela no N2 com todo o resto desligado"),
        ex04(9, roles_n2(), "Criar database no N2 com todo o resto desligado"),
        ex04(10, roles_n1(), "Inserir 1000 registros no N1 com o N2 desligado, depois religar o N2"),
        ex04(11, roles_mgm(), "Descrever a necessidade do MGM"),
        // ---- EX05: fragmentação horizontal ----
        Step {
            ex: 5, st: 1, roles: roles_n1(),
            title: "Criar tabela ALUNO particionada (PARTITION BY KEY) e inserir 15 registros",
            script: "EX05/01_N1_cria-tabela-particionada.bash",
            validate: "c=$(mysql -u root -Nse 'SELECT COUNT(*) FROM clusterdb.aluno' 2>/dev/null); [ \"${c:-0}\" -ge 15 ]",
            proof: "mysql -u root -e 'SELECT * FROM clusterdb.aluno;'",
            optional: false,
        },
        Step {
            ex: 5, st: 2, roles: roles_n1(),
            title: "Ver a distribuição dos registros entre as partições",
            script: "EX05/02_N1_distribuicao-particoes.bash",
            validate: "c=$(mysql -u root -Nse 'SELECT COUNT(*) FROM clusterdb.aluno' 2>/dev/null); [ \"${c:-0}\" -ge 15 ]",
            proof: r#"mysql -u root -e "SELECT partition_name, table_rows FROM information_schema.PARTITIONS WHERE table_schema='clusterdb' AND table_name='aluno';""#,
            optional: false,
        },
        // ---- EX08: Cassandra (cluster separado; node1=.1 seed=MGM, node2=.2=N1, node3=.3=N2) ----
        Step {
            ex: 8, st: 0, roles: roles_all(),
            title: "(opcional) Liberar memória parando o MySQL Cluster",
            script: "EX08/00_ALL_libera-memoria.bash",
            validate: "",
            proof: "",
            optional: true,
        },
        Step {
            ex: 8, st: 1, roles: roles_all(),
            title: "Configurar rede interna + hostname (node1/node2/node3)",
            script: "EX08/01_ALL_configura-rede.bash",
            validate: r#"case "${BDD_ROLE:-}" in mgm) E=192.168.1.1;; n1) E=192.168.1.2;; n2) E=192.168.1.3;; *) exit 1;; esac; ip -4 addr 2>/dev/null | grep -q "inet ${E}/""#,
            proof: "hostname; ip -4 addr show enp0s8 2>/dev/null | grep -w inet",
            optional: false,
        },
        Step {
            ex: 8, st: 2, roles: roles_all(),
            title: "Configurar o cassandra.yaml e subir o serviço (node1 primeiro)",
            script: "EX08/02_ALL_configura-cassandra.bash",
            validate: "nodetool status >/dev/null 2>&1",
            proof: "nodetool status",
            optional: false,
        },
        ex08(3, roles_mgm(), "Verificar o cluster (nodetool status, 3 nós UN)", "n=$(nodetool status 2>/dev/null | grep -c '^UN'); [ \"${n:-0}\" -ge 3 ]", "nodetool status"),
        ex08(4, roles_mgm(), "Criar keyspace (RF=3), tabela e inserir dados", "cqlsh 192.168.1.1 -e 'SELECT count(*) FROM classe.aluno;' 2>/dev/null | grep -qE '[1-9]'", "cqlsh 192.168.1.1 -e 'SELECT * FROM classe.aluno;'"),
        ex08(5, roles_n1(), "Verificar a replicação lendo no node2", "cqlsh 192.168.1.2 -e 'SELECT count(*) FROM classe.aluno;' 2>/dev/null | grep -qE '[1-9]'", "cqlsh 192.168.1.2 -e 'SELECT * FROM classe.aluno;'"),
        ex08(6, roles_n2(), "Verificar a replicação lendo no node3", "cqlsh 192.168.1.3 -e 'SELECT count(*) FROM classe.aluno;' 2>/dev/null | grep -qE '[1-9]'", "cqlsh 192.168.1.3 -e 'SELECT * FROM classe.aluno;'"),
        ex08(7, roles_mgm(), "Testar a consistência (QUORUM vs ONE com nós off)", "", ""),
    ];
    proof {
        assert(v@.len() == manifest_view().len());
    }
    v
}

fn ex04(st: u8, roles: &'static [Role], title: &'static str) -> (r: Step)
    ensures
        r@ == ex04_view(st, roles@, title@),
{
    Step {
        ex: 4,
        st,
        roles,
        title,
        script: "EX04/cenarios.bash",
        validate: "",  // observational: no automatic validation; "done" = you ran it
        proof: "",
        optional: false,
    }
}

fn ex08(
    st: u8,
    roles: &'static [Role],
    title: &'static str,
    validate: &'static str,
    proof: &'static str,
) -> (r: Step)
    ensures
        r@ == ex08_view(st, roles@, title@, validate@, proof@),
{
    Step {
        ex: 8,
        st,
        roles,
        title,
        script: "EX08/cassandra-uso.bash",
        validate,
        proof,
        optional: false,
    }
}


/// The exercise numbers of `exs`, each once, in order of first appearance.
pub open spec fn distinct_in_order(exs: Seq<u8>) -> Seq<u8>
    decreases exs.len(),
{
    if exs.len() == 0 {
        Seq::empty()
    } else {
        let r = distinct_in_order(exs.drop_last());
        if r.contains(exs.last()) {
            r
        } else {
            r.push(exs.last())
        }
    }
}

/// The exercise number of each step.
pub open spec fn step_exs(steps: Seq<Step>) -> Seq<u8> {
    steps.map_values(|s: Step| s.ex)
}

/// The numbers of the exercises, in order.
pub fn exercises(steps: &[Step]) -> (v: Vec<u8>)
    ensures
        v@ == distinct_in_order(step_exs(steps@)),
{
    let mut v: Vec<u8> = Vec::new();
    let mut i: usize = 0;
    assert(step_exs(steps@).subrange(0, 0) =~= Seq::<u8>::empty());
    while i < steps.len()
        invariant
            i <= steps@.len(),
            v@ == distinct_in_order(step_exs(steps@).subrange(0, i as int)),
        decreases steps@.len() - i,
    {
        let ghost pre = step_exs(steps@).subrange(0, i as int);
        let ghost nxt = step_exs(steps@).subrange(0, i + 1);
        assert(nxt.drop_last() =~= pre);
        assert(nxt.last() == steps@[i as int].ex);
        let ex = steps[i].ex;
        let mut found = false;
        let mut k: usize = 0;
        while k < v.len()
            invariant
                k <= v.len(),
                found == (exists|j: int| 0 <= j < k && v@[j] == ex),
            decreases v.len() - k,
        {
            if v[k] == ex {
                found = true;
            }
            k = k + 1;
        }
        assert(found == v@.contains(ex));
        if !found {
            v.push(ex);
        }
        i = i + 1;
    }
    assert(step_exs(steps@).subrange(0, steps@.len() as int) =~= step_exs(steps@));
    v
}

/// The first step whose identifier is `id`.
pub fn find<'a>(steps: &'a [Step], id: &str) -> (r: Option<&'a Step>)
    ensures
        match r {
            Some(s) => exists|i: int|
                0 <= i < steps@.len() && *s == steps@[i] && steps@[i].spec_id() == id@ && (forall|
                    j: int,
                | 0 <= j < i ==> (#[trigger] steps@[j]).spec_id() != id@),
            None => forall|j: int| 0 <= j < steps@.len() ==> (#[trigger] steps@[j]).spec_id() != id@,
        },
{
    let mut i: usize = 0;
    while i < steps.len()
        invariant
            i <= steps@.len(),
            forall|j: int| 0 <= j < i ==> (#[trigger] steps@[j]).spec_id() != id@,
        decreases steps@.len() - i,
    {
        let sid = steps[i].id();
        if str_eq(sid.as_str(), id) {
            return Some(&steps[i]);
        }
        i = i + 1;
    }
    None
}

// ------------------------------------------------------------------ laws

/// A role's code and its name both read back as the role.
pub proof fn lemma_role_texts_read_back(r: Role)
    ensures
        role_answer(role_code(r)) == Some(r),
        role_answer(role_name(r)) == Some(r),
{
    reveal_strlit("mgm");
    reveal_strlit("n1");
    reveal_strlit("n2");
    reveal_strlit("MGM");
    reveal_strlit("N1");
    reveal_strlit("N2");
    reveal_strlit("1");
    reveal_strlit("2");
    reveal_strlit("3");
    let c = role_code(r);
    let n = role_name(r);
    assert(trimmed_start(c) == c);
    assert(trimmed_end(c) == c);
    assert(trimmed_start(n) == n);
    assert(trimmed_end(n) == n);
    assert(all_ascii(c));
    assert(all_ascii(n));
    assert(ascii_lower(c) =~= c);
    assert(ascii_lower(n) =~= c);
}

/// The exercise list has no repetitions, and holds exactly the exercise
/// numbers of the steps.
pub proof fn lemma_exercises_distinct_complete(exs: Seq<u8>)
    ensures
        distinct_in_order(exs).no_duplicates(),
        forall|x: u8| distinct_in_order(exs).contains(x) <==> exs.contains(x),
    decreases exs.len(),
{
    if exs.len() > 0 {
        let d = exs.drop_last();
        lemma_exercises_distinct_complete(d);
        let r = distinct_in_order(d);
        assert forall|x: u8| distinct_in_order(exs).contains(x) <==> exs.contains(x) by {
            if exs.contains(x) && x != exs.last() {
                let k = choose|k: int| 0 <= k < exs.len() && exs[k] == x;
                assert(d[k] == x);
            }
            if d.contains(x) {
                let k = choose|k: int| 0 <= k < d.len() && d[k] == x;
                assert(exs[k] == x);
            }
            if !r.contains(exs.last()) {
                assert(r.push(exs.last())[r.len() as int] == exs.last());
                if r.push(exs.last()).contains(x) && x != exs.last() {
                    let k = choose|k: int| 0 <= k < r.len() + 1 && r.push(exs.last())[k] == x;
                    assert(r[k] == x);
                }
                if r.contains(x) {
                    let k = choose|k: int| 0 <= k < r.len() && r[k] == x;
                    assert(r.push(exs.last())[k] == x);
                }
            }
            assert(exs[exs.len() - 1] == exs.last());
        }
    }
}

/// Different (exercise, step) pairs have different identifiers.
pub proof fn lemma_step_id_injective(a: u8, b: u8, c: u8, d: u8)
    requires
        step_id(a, b) == step_id(c, d),
    ensures
        a == c && b == d,
{
    lemma_dec_shape(a as nat);
    lemma_dec_shape(b as nat);
    lemma_dec_shape(c as nat);
    lemma_dec_shape(d as nat);
    let x = step_id(a, b);
    let da = dec(a as nat);
    let dc = dec(c as nat);
    // The '.' is the only non-digit: its position is the length of the first part.
    if da.len() < dc.len() {
        assert(x[da.len() as int] == '.');
        assert(x[da.len() as int] == dc[da.len() as int]);
    } else if dc.len() < da.len() {
        assert(x[dc.len() as int] == '.');
        assert(x[dc.len() as int] == da[dc.len() as int]);
    }
    assert(da =~= x.subrange(0, da.len() as int));
    assert(dc =~= x.subrange(0, dc.len() as int));
    lemma_dec_injective(a as nat, c as nat);
    let db = dec(b as nat);
    let dd = dec(d as nat);
    assert(db =~= x.subrange(da.len() as int + 1, x.len() as int));
    assert(dd =~= x.subrange(dc.len() as int + 1, x.len() as int));
    lemma_dec_injective(b as nat, d as nat);
}

/// Decimal notation is made of digits and is not empty.
pub proof fn lemma_dec_shape(n: nat)
    ensures
        dec(n).len() > 0,
        forall|i: int| 0 <= i < dec(n).len() ==> is_digit(#[trigger] dec(n)[i]),
    decreases n,
{
    if n >= 10 {
        lemma_dec_shape(n / 10);
        let p = dec(n / 10);
        assert forall|i: int| 0 <= i < dec(n).len() implies is_digit(#[trigger] dec(n)[i]) by {
            if i < p.len() {
                assert(dec(n)[i] == p[i]);
            }
        }
    }
}

/// Different numbers have different decimal notations.
proof fn lemma_dec_injective(m: nat, n: nat)
    requires
        dec(m) == dec(n),
    ensures
        m == n,
    decreases m + n,
{
    if m >= 10 && n >= 10 {
        assert(dec(m).drop_last() =~= dec(m / 10));
        assert(dec(n).drop_last() =~= dec(n / 10));
        lemma_dec_injective(m / 10, n / 10);
        assert(dec(m).last() == digit_char(m % 10));
        assert(dec(n).last() == digit_char(n % 10));
    } else if m >= 10 {
        lemma_dec_shape(m / 10);
        assert(dec(m).len() > 1);
    } else if n >= 10 {
        lemma_dec_shape(n / 10);
        assert(dec(n).len() > 1);
    } else {
        assert(dec(m)[0] == digit_char(m));
    }
}

/// No two steps of the manifest share an identifier.
pub proof fn lemma_manifest_ids_unique(i: int, j: int)
    requires
        0 <= i < manifest_view().len(),
        0 <= j < manifest_view().len(),
        i != j,
    ensures
        step_id(manifest_view()[i].ex, manifest_view()[i].st) != step_id(
            manifest_view()[j].ex,
            manifest_view()[j].st,
        ),
{
    let m = manifest_view();
    assert(m[i].ex != m[j].ex || m[i].st != m[j].st);
    if step_id(m[i].ex, m[i].st) == step_id(m[j].ex, m[j].st) {
        lemma_step_id_injective(m[i].ex, m[i].st, m[j].ex, m[j].st);
    }
}

} // verus!
