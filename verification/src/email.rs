//! The mail that lets a user set a new password.

use vstd::prelude::*;
use vstd::string::StringExecFns;

verus! {

/// Where the mail is posted
pub const URL: &'static str = "https://api.mailgun.net/v3/rides.vstelt.dev/messages";

/// The sender of the mail
pub const FROM: &'static str = "ACF Rides <mail@rides.vstelt.dev>";

/// The template of the mail
pub const TEMPLATE: &'static str = "rides_reset_pw";

/// The subject of the mail
pub const SUBJECT: &'static str = "Reset Your Password";

/// The variables of the template: the reset id, as a JSON object.
pub fn reset_variables(reset_id: &str) -> (json: String)
    ensures
        json@ == "{\"reset_id\": \""@ + reset_id@ + "\"}"@,
{
    let mut json = "{\"reset_id\": \"".to_owned();
    json.append(reset_id);
    json.append("\"}");
    json
}

/// The form that is posted to send the mail: sender, receiver, template,
/// subject and the variables of the template, in this order.
pub fn reset_email_form(to: &str, reset_id: &str) -> (form: Vec<(&'static str, String)>)
    ensures
        form@.len() == 5,
        form@[0].0 == "from" && form@[0].1@ == FROM@,
        form@[1].0 == "to" && form@[1].1@ == to@,
        form@[2].0 == "template" && form@[2].1@ == TEMPLATE@,
        form@[3].0 == "subject" && form@[3].1@ == SUBJECT@,
        form@[4].0 == "t:variables" && form@[4].1@ == "{\"reset_id\": \""@ + reset_id@ + "\"}"@,
{
    let mut form: Vec<(&'static str, String)> = Vec::new();
    form.push(("from", FROM.to_owned()));
    form.push(("to", to.to_owned()));
    form.push(("template", TEMPLATE.to_owned()));
    form.push(("subject", SUBJECT.to_owned()));
    form.push(("t:variables", reset_variables(reset_id)));
    form
}

} // verus!
