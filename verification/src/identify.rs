//! What is asked of a host to find out its firmware, and what its answers show.

use vstd::prelude::*;

verus! {

/// A request that a firmware answers in a way of its own. The parameters are the
/// request's, written out; a request over any other transport is written out as a
/// whole.
#[derive(Debug)]
pub enum MinerCommand {
    Rpc { command: String, parameters: String },
    WebApi { command: String, parameters: String },
    Other { request: String },
}

/// A [`MinerCommand`] with its texts as sequences of characters.
pub enum CommandModel {
    Rpc { command: Seq<char>, parameters: Seq<char> },
    WebApi { command: Seq<char>, parameters: Seq<char> },
    Other { request: Seq<char> },
}

impl View for MinerCommand {
    type V = CommandModel;

    open spec fn view(&self) -> CommandModel {
        match self {
            MinerCommand::Rpc { command, parameters } => CommandModel::Rpc {
                command: command@,
                parameters: parameters@,
            },
            MinerCommand::WebApi { command, parameters } => CommandModel::WebApi {
                command: command@,
                parameters: parameters@,
            },
            MinerCommand::Other { request } => CommandModel::Other { request: request@ },
        }
    }
}

impl Clone for MinerCommand {
    fn clone(&self) -> (copy: Self)
        ensures
            copy@ == self@,
    {
        match self {
            MinerCommand::Rpc { command, parameters } => MinerCommand::Rpc {
                command: command.clone(),
                parameters: parameters.clone(),
            },
            MinerCommand::WebApi { command, parameters } => MinerCommand::WebApi {
                command: command.clone(),
                parameters: parameters.clone(),
            },
            MinerCommand::Other { request } => MinerCommand::Other { request: request.clone() },
        }
    }
}

impl MinerCommand {
    /// Whether both are the same request.
    pub fn same_as(&self, other: &MinerCommand) -> (same: bool)
        ensures
            same == (self@ == other@),
            same <==> match (self, other) {
                (
                    MinerCommand::Rpc { command: c, parameters: p },
                    MinerCommand::Rpc { command: d, parameters: q },
                ) => c@ == d@ && p@ == q@,
                (
                    MinerCommand::WebApi { command: c, parameters: p },
                    MinerCommand::WebApi { command: d, parameters: q },
                ) => c@ == d@ && p@ == q@,
                (
                    MinerCommand::Other { request: r },
                    MinerCommand::Other { request: s },
                ) => r@ == s@,
                _ => false,
            },
    {
        match (self, other) {
            (
                MinerCommand::Rpc { command: c, parameters: p },
                MinerCommand::Rpc { command: d, parameters: q },
            ) => c.eq(d) && p.eq(q),
            (
                MinerCommand::WebApi { command: c, parameters: p },
                MinerCommand::WebApi { command: d, parameters: q },
            ) => c.eq(d) && p.eq(q),
            (MinerCommand::Other { request: r }, MinerCommand::Other { request: s }) => r.eq(s),
            _ => false,
        }
    }
}

/// What the search for a host's firmware has to know of one firmware.
#[derive(Debug)]
pub struct Firmware {
    /// The name, by which credentials are found.
    pub name: String,
    /// Whether it is the firmware that the hardware is sold with.
    pub stock: bool,
    /// The requests whose answers show whether a host runs it.
    pub commands: Vec<MinerCommand>,
}

/// A [`Firmware`] with its texts as sequences of characters.
#[verifier::ext_equal]
pub struct FirmwareModel {
    pub name: Seq<char>,
    pub stock: bool,
    pub commands: Seq<CommandModel>,
}

/// The requests as they are modelled.
pub open spec fn models(commands: Seq<MinerCommand>) -> Seq<CommandModel> {
    commands.map_values(|command: MinerCommand| command@)
}

/// The firmwares of a registry as they are modelled.
pub open spec fn registry_model(registry: Seq<Firmware>) -> Seq<FirmwareModel> {
    registry.map_values(|firmware: Firmware| firmware@)
}

impl View for Firmware {
    type V = FirmwareModel;

    open spec fn view(&self) -> FirmwareModel {
        FirmwareModel {
            name: self.name@,
            stock: self.stock,
            commands: models(self.commands@),
        }
    }
}

impl Clone for Firmware {
    fn clone(&self) -> (copy: Self)
        ensures
            copy@ == self@,
    {
        let mut commands: Vec<MinerCommand> = Vec::new();
        let mut i: usize = 0;
        while i < self.commands.len()
            invariant
                i <= self.commands.len(),
                models(commands@) == models(self.commands@).take(i as int),
            decreases self.commands.len() - i,
        {
            let ghost before = models(commands@);
            commands.push(self.commands[i].clone());
            assert(models(commands@) =~= before.push(self.commands[i as int]@));
            assert(models(commands@) =~= models(self.commands@).take(i + 1));
            i = i + 1;
        }
        assert(models(commands@) =~= models(self.commands@));
        Firmware { name: self.name.clone(), stock: self.stock, commands }
    }
}

/// A copy of a registry.
pub fn clone_registry(registry: &Vec<Firmware>) -> (copy: Vec<Firmware>)
    ensures
        registry_model(copy@) == registry_model(registry@),
{
    let mut copy: Vec<Firmware> = Vec::new();
    let mut i: usize = 0;
    while i < registry.len()
        invariant
            i <= registry.len(),
            registry_model(copy@) == registry_model(registry@).take(i as int),
        decreases registry.len() - i,
    {
        let ghost before = registry_model(copy@);
        copy.push(registry[i].clone());
        assert(registry_model(copy@) =~= before.push(registry[i as int]@));
        assert(registry_model(copy@) =~= registry_model(registry@).take(i + 1));
        i = i + 1;
    }
    assert(registry_model(copy@) =~= registry_model(registry@));
    copy
}

/// `known` with those of `commands` that are new appended in order.
pub open spec fn with_new(known: Seq<CommandModel>, commands: Seq<CommandModel>) -> Seq<
    CommandModel,
>
    decreases commands.len(),
{
    if commands.len() == 0 {
        known
    } else {
        let front = with_new(known, commands.drop_last());
        if front.contains(commands.last()) {
            front
        } else {
            front.push(commands.last())
        }
    }
}

/// The requests of all firmwares, each once, in the order in which they first come.
pub open spec fn gathered(registry: Seq<FirmwareModel>) -> Seq<CommandModel>
    decreases registry.len(),
{
    if registry.len() == 0 {
        Seq::empty()
    } else {
        with_new(gathered(registry.drop_last()), registry.last().commands)
    }
}

/// Whether `command` is among `commands`.
fn is_listed(commands: &Vec<MinerCommand>, command: &MinerCommand) -> (listed: bool)
    ensures
        listed == models(commands@).contains(command@),
{
    let mut i: usize = 0;
    while i < commands.len()
        invariant
            i <= commands.len(),
            forall|k: int| 0 <= k < i ==> (#[trigger] commands[k])@ != command@,
        decreases commands.len() - i,
    {
        if commands[i].same_as(command) {
            assert(models(commands@)[i as int] == command@);
            return true;
        }
        i = i + 1;
    }
    assert(!models(commands@).contains(command@)) by {
        if models(commands@).contains(command@) {
            let k = choose|k: int|
                0 <= k < models(commands@).len() && models(commands@)[k] == command@;
            assert(commands[k]@ == command@);
        }
    }
    false
}

/// The requests to send to a host: those of all firmwares, each once.
pub fn discovery_commands(registry: &Vec<Firmware>) -> (commands: Vec<MinerCommand>)
    ensures
        models(commands@) == gathered(registry_model(registry@)),
{
    let mut commands: Vec<MinerCommand> = Vec::new();
    let mut i: usize = 0;
    let ghost model = registry_model(registry@);
    assert(models(commands@) =~= Seq::<CommandModel>::empty());
    while i < registry.len()
        invariant
            i <= registry.len(),
            model == registry_model(registry@),
            models(commands@) == gathered(model.take(i as int)),
        decreases registry.len() - i,
    {
        let ghost known = models(commands@);
        let offered = &registry[i].commands;
        let mut k: usize = 0;
        assert(models(offered@).take(0) =~= Seq::<CommandModel>::empty());
        while k < offered.len()
            invariant
                k <= offered.len(),
                models(commands@) == with_new(known, models(offered@).take(k as int)),
            decreases offered.len() - k,
        {
            let ghost before = models(commands@);
            if !is_listed(&commands, &offered[k]) {
                commands.push(offered[k].clone());
                assert(models(commands@) =~= before.push(offered[k as int]@));
            }
            assert(models(offered@).take(k + 1).drop_last() =~= models(offered@).take(k as int));
            k = k + 1;
        }
        assert(models(offered@).take(k as int) =~= models(offered@));
        assert(model.take(i + 1).drop_last() =~= model.take(i as int));
        i = i + 1;
    }
    assert(model.take(i as int) =~= model);
    commands
}

/// The requests that are sent are those of the firmwares in the registry: each of theirs
/// is sent, no other is, and none is sent twice.
pub proof fn law_requests_are_those_of_the_registry(commands: Seq<MinerCommand>, registry: Seq<Firmware>)
    requires
        models(commands) == gathered(registry_model(registry)),
    ensures
        forall|i: int, k: int|
            0 <= i < registry.len() && 0 <= k < registry[i].commands@.len() ==> exists|j: int|
                0 <= j < commands.len() && (#[trigger] commands[j])@ == (
                #[trigger] registry[i].commands@[k])@,
        forall|j: int|
            0 <= j < commands.len() ==> exists|i: int, k: int|
                0 <= i < registry.len() && 0 <= k < registry[i].commands@.len() && (
                #[trigger] registry[i].commands@[k])@ == (#[trigger] commands[j])@,
        forall|i: int, j: int|
            0 <= i < j < commands.len() ==> (#[trigger] commands[i])@ != (#[trigger] commands[j])@,
{
    let model = registry_model(registry);
    let all = models(commands);
    law_each_request_once(model);
    assert forall|i: int, k: int|
        0 <= i < registry.len() && 0 <= k < registry[i].commands@.len() implies exists|j: int|
        0 <= j < commands.len() && (#[trigger] commands[j])@ == (
        #[trigger] registry[i].commands@[k])@ by {
        let wanted = registry[i].commands@[k]@;
        assert(model[i].commands[k] == wanted);
        assert(model[i].commands.contains(wanted));
        assert(all.contains(wanted));
        let j = choose|j: int| 0 <= j < all.len() && all[j] == wanted;
        assert(commands[j]@ == wanted);
    }
    assert forall|j: int| 0 <= j < commands.len() implies exists|i: int, k: int|
        0 <= i < registry.len() && 0 <= k < registry[i].commands@.len() && (
        #[trigger] registry[i].commands@[k])@ == (#[trigger] commands[j])@ by {
        assert(all[j] == commands[j]@);
        assert(all.contains(commands[j]@));
        let i = choose|i: int|
            0 <= i < model.len() && (#[trigger] model[i]).commands.contains(commands[j]@);
        let k = choose|k: int|
            0 <= k < model[i].commands.len() && model[i].commands[k] == commands[j]@;
        assert(registry[i].commands@[k]@ == commands[j]@);
    }
    assert forall|i: int, j: int| 0 <= i < j < commands.len() implies (#[trigger] commands[i])@ != (
    #[trigger] commands[j])@ by {
        assert(all[i] == commands[i]@ && all[j] == commands[j]@);
    }
}

/// A header of an HTTP response: the name in lower case, and the value where it is
/// plain text.
#[derive(Debug)]
pub struct Header {
    pub name: String,
    pub value: Option<String>,
}

/// An HTTP response as it came in.
#[derive(Debug)]
pub struct WebReply {
    pub body: String,
    pub headers: Vec<Header>,
    pub status: u16,
}

/// The parts of an HTTP response that firmwares are told apart by.
#[derive(Debug)]
pub struct WebResponse {
    pub body: String,
    pub auth_header: String,
    pub algo_header: String,
    pub redirect_header: String,
    pub status: u16,
}

/// The value of the first header called `name`; empty where there is none or its
/// value is no plain text.
pub open spec fn header_value(headers: Seq<Header>, name: Seq<char>) -> Seq<char>
    decreases headers.len(),
{
    if headers.len() == 0 {
        Seq::empty()
    } else if headers[0].name@ == name {
        match headers[0].value {
            Some(value) => value@,
            None => Seq::empty(),
        }
    } else {
        header_value(headers.drop_first(), name)
    }
}

/// The value of the first header called `name`, or nothing.
fn find_header(headers: &Vec<Header>, name: &str) -> (value: String)
    ensures
        value@ == header_value(headers@, name@),
{
    let wanted = name.to_owned();
    let mut i: usize = 0;
    assert(headers@.skip(0) =~= headers@);
    while i < headers.len()
        invariant
            i <= headers.len(),
            wanted@ == name@,
            header_value(headers@, name@) == header_value(headers@.skip(i as int), name@),
        decreases headers.len() - i,
    {
        assert(headers@.skip(i as int).drop_first() =~= headers@.skip(i + 1));
        if headers[i].name.eq(&wanted) {
            return match &headers[i].value {
                Some(value) => value.clone(),
                None => String::new(),
            };
        }
        i = i + 1;
    }
    String::new()
}

impl WebReply {
    /// The parts that firmwares are told apart by.
    pub fn response(&self) -> (response: WebResponse)
        ensures
            response.body@ == self.body@,
            response.auth_header@ == header_value(self.headers@, "www-authenticate"@),
            response.algo_header@ == header_value(self.headers@, "algorithm"@),
            response.redirect_header@ == header_value(self.headers@, "location"@),
            response.status == self.status,
    {
        WebResponse {
            body: self.body.clone(),
            auth_header: find_header(&self.headers, "www-authenticate"),
            algo_header: find_header(&self.headers, "algorithm"),
            redirect_header: find_header(&self.headers, "location"),
            status: self.status,
        }
    }
}

/// What a host answered to a request.
#[derive(Debug)]
pub enum CommandReply {
    /// The response to an RPC request, if one came.
    Rpc { response: Option<String> },
    /// The response to a web request, if one came.
    WebApi { response: Option<WebReply> },
    /// The request went over a transport that is not used to identify hosts.
    Unsupported,
}

/// What firmwares are asked to recognise.
#[derive(Debug)]
pub enum Evidence {
    /// An RPC response in upper case.
    Rpc { text: String },
    Web { response: WebResponse },
}

/// What `str::to_uppercase` makes of `text`.
pub uninterp spec fn uppercase(text: Seq<char>) -> Seq<char>;

/// Calls `str::to_uppercase`. Claimed: what it returns depends on the text alone.
/// How it maps each character is not stated.
#[verifier::external_body]
fn to_uppercase(text: &str) -> (upper: String)
    ensures
        upper@ == uppercase(text@),
{
    text.to_uppercase()
}

/// Whether `evidence` is what `reply` shows.
pub open spec fn shows(reply: CommandReply, evidence: Evidence) -> bool {
    match (reply, evidence) {
        (CommandReply::Rpc { response: Some(response) }, Evidence::Rpc { text }) => text@
            == uppercase(response@),
        (
            CommandReply::WebApi { response: Some(reply) },
            Evidence::Web { response },
        ) => response.body@ == reply.body@ && response.auth_header@ == header_value(
            reply.headers@,
            "www-authenticate"@,
        ) && response.algo_header@ == header_value(reply.headers@, "algorithm"@)
            && response.redirect_header@ == header_value(reply.headers@, "location"@)
            && response.status == reply.status,
        _ => false,
    }
}

impl CommandReply {
    /// Whether there is an answer to look at.
    pub open spec fn answered(self) -> bool {
        match self {
            CommandReply::Rpc { response } => response is Some,
            CommandReply::WebApi { response } => response is Some,
            CommandReply::Unsupported => false,
        }
    }

    /// What firmwares are asked to recognise, if anything.
    pub fn evidence(&self) -> (evidence: Option<Evidence>)
        ensures
            evidence is Some <==> self.answered(),
            evidence matches Some(evidence) ==> shows(*self, evidence),
            *self matches CommandReply::Rpc { response: Some(response) } ==> (
            evidence matches Some(Evidence::Rpc { text }) && text@ == uppercase(response@)),
            *self matches CommandReply::WebApi { response: Some(reply) } ==> (
            evidence matches Some(Evidence::Web { response }) && response.body@ == reply.body@
                && response.status == reply.status && response.auth_header@ == header_value(
                reply.headers@,
                "www-authenticate"@,
            ) && response.algo_header@ == header_value(reply.headers@, "algorithm"@)
                && response.redirect_header@ == header_value(reply.headers@, "location"@)),
            *self is Unsupported ==> evidence is None,
            (*self matches CommandReply::Rpc { response: None }) ==> evidence is None,
            (*self matches CommandReply::WebApi { response: None }) ==> evidence is None,
    {
        match self {
            CommandReply::Rpc { response: Some(response) } => Some(
                Evidence::Rpc { text: to_uppercase(response.as_str()) },
            ),
            CommandReply::WebApi { response: Some(reply) } => Some(
                Evidence::Web { response: reply.response() },
            ),
            _ => None,
        }
    }
}

/// Whether `found` is the first of `count` firmwares that recognises `evidence`.
pub open spec fn first_to_recognise<F: Fn(usize, &Evidence) -> bool>(
    recognises: F,
    count: usize,
    evidence: &Evidence,
    found: Option<usize>,
) -> bool {
    match found {
        Some(index) => index < count && call_ensures(recognises, (index, evidence), true)
            && forall|earlier: usize|
            earlier < index ==> call_ensures(recognises, (earlier, evidence), false),
        None => forall|index: usize|
            index < count ==> call_ensures(recognises, (index, evidence), false),
    }
}

/// The first of `count` firmwares, in order of priority, that recognises
/// `evidence`; those behind it are not asked.
pub fn find_firmware<F: Fn(usize, &Evidence) -> bool>(
    recognises: &F,
    count: usize,
    evidence: &Evidence,
) -> (found: Option<usize>)
    requires
        forall|index: usize| index < count ==> call_requires(*recognises, (index, evidence)),
    ensures
        first_to_recognise(*recognises, count, evidence, found),
        found matches Some(index) ==> index < count && call_ensures(
            *recognises,
            (index, evidence),
            true,
        ),
        forall|index: usize|
            index < count && (found matches Some(first) ==> index < first) ==> call_ensures(
                *recognises,
                (index, evidence),
                false,
            ),
{
    let mut index: usize = 0;
    while index < count
        invariant
            index <= count,
            forall|index: usize| index < count ==> call_requires(*recognises, (index, evidence)),
            forall|earlier: usize|
                earlier < index ==> call_ensures(*recognises, (earlier, evidence), false),
        decreases count - index,
    {
        if (*recognises)(index, evidence) {
            return Some(index);
        }
        index = index + 1;
    }
    None
}

/// The firmware that a host's answer shows: the first of `count` firmwares that
/// recognises it. No answer shows none.
pub fn get_miner_type_from_command<F: Fn(usize, &Evidence) -> bool>(
    reply: &CommandReply,
    count: usize,
    recognises: &F,
) -> (found: Option<usize>)
    requires
        forall|index: usize, evidence: &Evidence|
            index < count ==> call_requires(*recognises, (index, evidence)),
    ensures
        !reply.answered() ==> found is None,
        reply.answered() ==> exists|evidence: Evidence| #[trigger]
            shows(*reply, evidence) && first_to_recognise(*recognises, count, &evidence, found),
        found matches Some(index) ==> index < count,
        *reply matches CommandReply::Rpc { response: Some(response) } ==> exists|text: String|
            text@ == uppercase(response@) && #[trigger] first_to_recognise(
                *recognises,
                count,
                &Evidence::Rpc { text },
                found,
            ),
        *reply matches CommandReply::WebApi { response: Some(web) } ==> exists|
            response: WebResponse,
        |
            response.body@ == web.body@ && response.status == web.status && response.auth_header@
                == header_value(web.headers@, "www-authenticate"@) && response.algo_header@
                == header_value(web.headers@, "algorithm"@) && response.redirect_header@
                == header_value(web.headers@, "location"@) && #[trigger] first_to_recognise(
                *recognises,
                count,
                &Evidence::Web { response },
                found,
            ),
{
    match reply.evidence() {
        Some(evidence) => {
            let found = find_firmware(recognises, count, &evidence);
            assert(shows(*reply, evidence));
            proof {
                match evidence {
                    Evidence::Rpc { text } => {
                        assert(first_to_recognise(
                            *recognises,
                            count,
                            &Evidence::Rpc { text },
                            found,
                        ));
                    },
                    Evidence::Web { response } => {
                        assert(first_to_recognise(
                            *recognises,
                            count,
                            &Evidence::Web { response },
                            found,
                        ));
                    },
                }
            }
            found
        },
        None => None,
    }
}

/// What a driver's panic carries.
#[derive(Debug)]
pub enum PanicPayload {
    /// A text of the program.
    Literal(&'static str),
    /// A text made at run time.
    Text(String),
    /// Anything else.
    Other,
}

impl PanicPayload {
    /// What the panic says of itself.
    pub open spec fn text(self) -> Seq<char> {
        match self {
            PanicPayload::Literal(message) => message@,
            PanicPayload::Text(message) => message@,
            PanicPayload::Other => "unknown panic"@,
        }
    }
}

/// What a panic says of itself.
pub fn panic_message<'a>(panic_info: &'a PanicPayload) -> (message: &'a str)
    ensures
        message@ == panic_info.text(),
        match panic_info {
            PanicPayload::Literal(text) => message@ == text@,
            PanicPayload::Text(text) => message@ == text@,
            PanicPayload::Other => message@ == "unknown panic"@,
        },
{
    match panic_info {
        PanicPayload::Literal(message) => message,
        PanicPayload::Text(message) => message.as_str(),
        PanicPayload::Other => "unknown panic",
    }
}

/// What one request came to: a driver that panicked recognised nothing.
pub fn get_miner_type_from_command_catch_unwind(
    result: Result<Option<usize>, PanicPayload>,
) -> (found: Option<usize>)
    ensures
        found == match result {
            Ok(found) => found,
            Err(_) => None,
        },
{
    match result {
        Ok(found) => found,
        Err(_) => None,
    }
}

/// Every request of every firmware is sent, no other, and none twice.
pub proof fn law_each_request_once(registry: Seq<FirmwareModel>)
    ensures
        gathered(registry).no_duplicates(),
        forall|command: CommandModel| #[trigger]
            gathered(registry).contains(command) <==> exists|i: int|
                0 <= i < registry.len() && (#[trigger] registry[i]).commands.contains(
                    command,
                ),
    decreases registry.len(),
{
    if registry.len() > 0 {
        let front = registry.drop_last();
        law_each_request_once(front);
        lemma_with_new(gathered(front), registry.last().commands);
        assert forall|command: CommandModel| #[trigger]
            gathered(registry).contains(command) <==> exists|i: int|
                0 <= i < registry.len() && (#[trigger] registry[i]).commands.contains(
                    command,
                ) by {
            assert(gathered(front).contains(command) <==> exists|i: int|
                0 <= i < front.len() && (#[trigger] front[i]).commands.contains(command));
            if gathered(front).contains(command) {
                let i = choose|i: int|
                    0 <= i < front.len() && (#[trigger] front[i]).commands.contains(
                        command,
                    );
                assert(registry[i] == front[i]);
            }
            if registry.last().commands.contains(command) {
                assert(registry[registry.len() - 1] == registry.last());
            }
            if exists|i: int|
                0 <= i < registry.len() && (#[trigger] registry[i]).commands.contains(
                    command,
                ) {
                let i = choose|i: int|
                    0 <= i < registry.len() && (#[trigger] registry[i]).commands.contains(
                        command,
                    );
                if i < front.len() {
                    assert(front[i] == registry[i]);
                }
            }
        }
    }
}

proof fn lemma_with_new(known: Seq<CommandModel>, commands: Seq<CommandModel>)
    requires
        known.no_duplicates(),
    ensures
        with_new(known, commands).no_duplicates(),
        forall|command: CommandModel| #[trigger]
            with_new(known, commands).contains(command) <==> known.contains(command)
                || commands.contains(command),
    decreases commands.len(),
{
    if commands.len() > 0 {
        let rest = commands.drop_last();
        let last = commands.last();
        lemma_with_new(known, rest);
        let front = with_new(known, rest);
        let all = with_new(known, commands);
        assert forall|command: CommandModel| #[trigger]
            all.contains(command) <==> known.contains(command) || commands.contains(command) by {
            assert(commands.contains(command) <==> rest.contains(command) || command == last) by {
                if rest.contains(command) {
                    let i = choose|i: int| 0 <= i < rest.len() && rest[i] == command;
                    assert(commands[i] == command);
                }
                assert(commands[commands.len() - 1] == last);
                if commands.contains(command) {
                    let i = choose|i: int| 0 <= i < commands.len() && commands[i] == command;
                    if i < rest.len() {
                        assert(rest[i] == command);
                    }
                }
            }
            assert(all.contains(command) <==> front.contains(command) || command == last) by {
                if !front.contains(last) {
                    assert(all == front.push(last));
                    assert(all[all.len() - 1] == last);
                    if front.contains(command) {
                        let i = choose|i: int| 0 <= i < front.len() && front[i] == command;
                        assert(all[i] == command);
                    }
                    if all.contains(command) {
                        let i = choose|i: int| 0 <= i < all.len() && all[i] == command;
                        if i < front.len() {
                            assert(front[i] == command);
                        }
                    }
                }
            }
            assert(front.contains(command) <==> known.contains(command) || rest.contains(
                command,
            ));
        }
    }
}

/// Requests are told apart by their transport, their command and their parameters.
pub proof fn law_requests_are_told_apart(a: MinerCommand, b: MinerCommand)
    ensures
        a@ == b@ <==> match (a, b) {
            (
                MinerCommand::Rpc { command: c, parameters: p },
                MinerCommand::Rpc { command: d, parameters: q },
            ) => c@ == d@ && p@ == q@,
            (
                MinerCommand::WebApi { command: c, parameters: p },
                MinerCommand::WebApi { command: d, parameters: q },
            ) => c@ == d@ && p@ == q@,
            (MinerCommand::Other { request: r }, MinerCommand::Other { request: s }) => r@ == s@,
            _ => false,
        },
{
}

/// What is known of a firmware is its name, whether it is stock, and its requests in
/// order.
pub proof fn law_firmware_is_its_parts(registry: Seq<Firmware>, i: int, k: int)
    requires
        0 <= i < registry.len(),
    ensures
        registry_model(registry).len() == registry.len(),
        registry_model(registry)[i] == registry[i]@,
        registry[i]@.name == registry[i].name@,
        registry[i]@.stock == registry[i].stock,
        registry[i]@.commands.len() == registry[i].commands@.len(),
        0 <= k < registry[i].commands@.len() ==> registry[i]@.commands[k]
            == registry[i].commands@[k]@,
{
}

/// A header is read by its name: of several with that name the first counts, and where
/// there is none, or its value is no plain text, nothing is read.
pub proof fn law_first_header_counts(headers: Seq<Header>, name: Seq<char>, i: int)
    requires
        0 <= i <= headers.len(),
        forall|k: int| 0 <= k < i ==> (#[trigger] headers[k]).name@ != name,
        i < headers.len() ==> headers[i].name@ == name,
    ensures
        i == headers.len() ==> header_value(headers, name) == Seq::<char>::empty(),
        i < headers.len() ==> match headers[i].value {
            Some(value) => header_value(headers, name) == value@,
            None => header_value(headers, name) == Seq::<char>::empty(),
        },
    decreases headers.len(),
{
    if headers.len() > 0 && i > 0 {
        let rest = headers.drop_first();
        assert(headers[0].name@ != name);
        assert forall|k: int| 0 <= k < i - 1 implies (#[trigger] rest[k]).name@ != name by {
            assert(headers[k + 1].name@ != name);
        }
        law_first_header_counts(rest, name, i - 1);
    }
}

/// An RPC answer shows its own text in upper case, a web answer its own body, status and
/// three of its headers, and nothing else is shown.
pub proof fn law_evidence_is_the_answer(reply: CommandReply, evidence: Evidence)
    requires
        shows(reply, evidence),
    ensures
        reply.answered(),
        match evidence {
            Evidence::Rpc { text } => reply matches CommandReply::Rpc { response: Some(response) }
                && text@ == uppercase(response@),
            Evidence::Web { response } => reply matches CommandReply::WebApi {
                response: Some(web),
            } && response.body@ == web.body@ && response.status == web.status
                && response.auth_header@ == header_value(web.headers@, "www-authenticate"@)
                && response.algo_header@ == header_value(web.headers@, "algorithm"@)
                && response.redirect_header@ == header_value(web.headers@, "location"@),
        },
{
}

/// There is an answer exactly when a response came over RPC or the web.
pub proof fn law_answered(reply: CommandReply)
    ensures
        reply.answered() <==> (reply matches CommandReply::Rpc { response } && response is Some)
            || (reply matches CommandReply::WebApi { response } && response is Some),
{
}

/// The firmware that is found recognised the evidence and none before it did; where none
/// is found, none did.
pub proof fn law_first_firmware_counts<F: Fn(usize, &Evidence) -> bool>(
    recognises: F,
    count: usize,
    evidence: &Evidence,
    found: Option<usize>,
    index: usize,
)
    requires
        first_to_recognise(recognises, count, evidence, found),
        index < count,
    ensures
        found == Some(index) ==> call_ensures(recognises, (index, evidence), true),
        found is None ==> call_ensures(recognises, (index, evidence), false),
        (found matches Some(first) && index < first) ==> call_ensures(
            recognises,
            (index, evidence),
            false,
        ),
        found matches Some(first) ==> first < count,
{
}

} // verus!
